//! What is done when bans end, in terms of single actions.

use crate::action::{
    action_models, blocked_models, Action, ActionModel, BlockedModel, BlockedOffense,
};
use crate::alert::{AlertModel, AlertSeverity, AlertType};
use crate::engine::IpBanEngine;
use crate::engine_laws::{count_where, lemma_count_four};
use crate::release::{addresses, expiry_actions, lemma_addresses, manual_release, seen_before};
use vstd::prelude::*;

verus! {

/// Whether the alert says that the address is released, for the reason that the words give.
pub open spec fn announces_release(alert: AlertModel, ip: Seq<char>, words: Seq<char>) -> bool {
    &&& alert.alert_type == AlertType::SystemEvent
    &&& alert.severity == AlertSeverity::Info
    &&& alert.message == "Released IP ban for "@ + ip
    &&& alert.metadata.source == Some("ip_ban"@)
    &&& alert.metadata.reason == Some(words + ip)
    &&& alert.metadata.container_id is None
    &&& alert.metadata.extra.len() == 0
}

/// Sending out the alert of a release.
pub open spec fn send_release() -> ActionModel {
    ActionModel::Notify {
        env_toggle: "STACKDOG_NOTIFY_IP_BAN_ACTIONS"@,
        action_name: "ip ban release"@,
    }
}

/// Whether the actions are those of a release by hand: nothing is blocked at the firewall or
/// marked as blocked; the address is unblocked, its offense marked as released and the alert
/// raised, once each; the address is unblocked before all else; and the alert is sent out right
/// after it is raised, once.
pub open spec fn releases_by_hand(
    actions: Seq<ActionModel>,
    id: Seq<char>,
    ip: Seq<char>,
) -> bool {
    &&& count_where(actions, |a: ActionModel| a is FirewallBlock) == 0
    &&& count_where(actions, |a: ActionModel| a is MarkBlocked) == 0
    &&& count_where(actions, |a: ActionModel| a is FirewallUnblock) == 1
    &&& count_where(actions, |a: ActionModel| a == ActionModel::FirewallUnblock(ip)) == 1
    &&& count_where(actions, |a: ActionModel| a is MarkReleased) == 1
    &&& count_where(actions, |a: ActionModel| a == ActionModel::MarkReleased(id)) == 1
    &&& count_where(actions, |a: ActionModel| a is CreateAlert) == 1
    &&& count_where(
        actions,
        |a: ActionModel|
            a is CreateAlert && announces_release(
                a->CreateAlert_0,
                ip,
                "Manually released ban for "@,
            ),
    ) == 1
    &&& count_where(actions, |a: ActionModel| a is Notify) == 1
    &&& count_where(actions, |a: ActionModel| a == send_release()) == 1
    &&& forall|i: int|
        0 <= i < actions.len() && (#[trigger] actions[i]) is CreateAlert ==> i + 1 < actions.len()
            && actions[i + 1] == send_release()
    &&& forall|i: int, k: int|
        0 <= i < actions.len() && 0 <= k < actions.len() && (#[trigger] actions[i])
            is FirewallUnblock && !((#[trigger] actions[k]) is FirewallUnblock) ==> i < k
    &&& forall|i: int, k: int|
        0 <= i < actions.len() && 0 <= k < actions.len() && (#[trigger] actions[i]) is MarkReleased
            && (#[trigger] actions[k]) is CreateAlert ==> i < k
}

/// A release by hand never blocks: it unblocks the address, marks its offense as released and
/// raises the alert, once each, and sends the alert out right after that, once.
pub proof fn law_release_by_hand(row: BlockedModel)
    ensures
        releases_by_hand(manual_release(row), row.id, row.ip_address),
{
    let actions = manual_release(row);
    lemma_count_four(actions, |a: ActionModel| a is FirewallBlock);
    lemma_count_four(actions, |a: ActionModel| a is MarkBlocked);
    lemma_count_four(actions, |a: ActionModel| a is FirewallUnblock);
    lemma_count_four(
        actions,
        |a: ActionModel| a == ActionModel::FirewallUnblock(row.ip_address),
    );
    lemma_count_four(actions, |a: ActionModel| a is MarkReleased);
    lemma_count_four(actions, |a: ActionModel| a == ActionModel::MarkReleased(row.id));
    lemma_count_four(actions, |a: ActionModel| a is CreateAlert);
    lemma_count_four(
        actions,
        |a: ActionModel|
            a is CreateAlert && announces_release(
                a->CreateAlert_0,
                row.ip_address,
                "Manually released ban for "@,
            ),
    );
    lemma_count_four(actions, |a: ActionModel| a is Notify);
    lemma_count_four(actions, |a: ActionModel| a == send_release());
}

/// The engine releases by hand exactly where the address has an active block, and then as above.
pub proof fn law_unban_releases_by_hand(
    engine: &IpBanEngine,
    active: &Option<BlockedOffense>,
    actions: Option<Vec<Action>>,
)
    requires
        call_ensures(IpBanEngine::unban_ip, (engine, active), actions),
    ensures
        active is None ==> actions is None,
        *active matches Some(row) ==> (actions matches Some(list) && releases_by_hand(
            action_models(list@),
            row.id@,
            row.ip_address@,
        )),
{
    if let Some(row) = *active {
        law_release_by_hand(row@);
    }
}

/// Nothing is done where no ban has expired.
pub proof fn law_no_expired_row_no_action()
    ensures
        expiry_actions(seq![]).len() == 0,
{
}

/// One more expired row adds to what is done: it is marked as released. Where its address is that
/// of an earlier row, that is all; otherwise the address is then unblocked, and a release alert for
/// it raised and sent out.
pub proof fn law_one_more_expired_row(rows: Seq<BlockedModel>, row: BlockedModel)
    ensures
        ({
            let before = expiry_actions(rows);
            let all = expiry_actions(rows.push(row));
            let more = all.skip(before.len() as int);
            let known = exists|j: int|
                0 <= j < rows.len() && (#[trigger] rows[j]).ip_address == row.ip_address;
            &&& before.is_prefix_of(all)
            &&& more.len() > 0 && more[0] == ActionModel::MarkReleased(row.id)
            &&& known ==> more.len() == 1
            &&& !known ==> {
                &&& more.len() == 4
                &&& more[1] == ActionModel::FirewallUnblock(row.ip_address)
                &&& more[2] is CreateAlert
                &&& announces_release(
                    more[2]->CreateAlert_0,
                    row.ip_address,
                    "Released expired ban for "@,
                )
                &&& more[3] == send_release()
            }
        }),
{
    let all_rows = rows.push(row);
    assert(all_rows.drop_last() =~= rows);
    let n = all_rows.len() - 1;
    let known = exists|j: int|
        0 <= j < rows.len() && (#[trigger] rows[j]).ip_address == row.ip_address;
    if known {
        let j = choose|j: int|
            0 <= j < rows.len() && (#[trigger] rows[j]).ip_address == row.ip_address;
        assert(all_rows[j] == rows[j]);
        assert(seen_before(all_rows, n));
    }
    if seen_before(all_rows, n) {
        let j = choose|j: int|
            0 <= j < n && (#[trigger] all_rows[j]).ip_address == all_rows[n].ip_address;
        assert(rows[j] == all_rows[j]);
    }
}

/// Expired bans never lead to a block.
pub proof fn law_expiry_never_blocks(rows: Seq<BlockedModel>, k: int)
    requires
        0 <= k < expiry_actions(rows).len(),
    ensures
        !(expiry_actions(rows)[k] is FirewallBlock),
        !(expiry_actions(rows)[k] is MarkBlocked),
    decreases rows.len(),
{
    let before = rows.drop_last();
    let all = expiry_actions(rows);
    let n = expiry_actions(before).len() as int;
    assert(before.push(rows.last()) =~= rows);
    law_one_more_expired_row(before, rows.last());
    if k < n {
        law_expiry_never_blocks(before, k);
        assert(all[k] == expiry_actions(before)[k]);
    } else {
        let more = all.skip(n);
        assert(all[k] == more[k - n]);
        assert(k - n == 0 || k - n == 1 || k - n == 2 || k - n == 3);
    }
}

/// The engine handles the expired rows in their order, and counts each address once.
pub proof fn law_unban_expired_handles_all_rows(
    engine: &IpBanEngine,
    expired: &[BlockedOffense],
    result: (Vec<Action>, usize),
)
    requires
        call_ensures(IpBanEngine::unban_expired, (engine, expired), result),
    ensures
        action_models(result.0@) == expiry_actions(blocked_models(expired@)),
        exists|released: Set<Seq<char>>|
            {
                &&& #[trigger] released.finite()
                &&& released.len() == result.1
                &&& forall|ip: Seq<char>| #[trigger]
                    released.contains(ip) <==> exists|j: int|
                        0 <= j < expired@.len() && (#[trigger] expired@[j]).ip_address@ == ip
            },
{
    let rows = blocked_models(expired@);
    lemma_addresses(rows);
    let released = addresses(rows);
    assert forall|ip: Seq<char>| #[trigger]
        released.contains(ip) <==> exists|j: int|
            0 <= j < expired@.len() && (#[trigger] expired@[j]).ip_address@ == ip by {
        if released.contains(ip) {
            let j = choose|j: int| 0 <= j < rows.len() && (#[trigger] rows[j]).ip_address == ip;
            assert(expired@[j].ip_address@ == ip);
        }
        if exists|j: int| 0 <= j < expired@.len() && (#[trigger] expired@[j]).ip_address@ == ip {
            let j = choose|j: int|
                0 <= j < expired@.len() && (#[trigger] expired@[j]).ip_address@ == ip;
            assert(rows[j].ip_address == ip);
        }
    }
    assert(released.finite());
}

} // verus!
