//! The end of bans: lifted by hand, or expired.

use crate::action::{
    action_models, blocked_models, notify, notify_model, push_action, Action, ActionModel,
    BlockedModel, BlockedOffense,
};
use crate::alert::{release_alert, release_alert_model, ReleaseCause};
use crate::engine::IpBanEngine;
use crate::progress::{done, law_done_when_one_fails};
use crate::text::{chars_of, same_text};
use vstd::prelude::*;

verus! {

/// Lifting a ban ahead of its end: unblock the address, mark the offense, raise the alert.
pub open spec fn manual_release(row: BlockedModel) -> Seq<ActionModel> {
    seq![
        ActionModel::FirewallUnblock(row.ip_address),
        ActionModel::MarkReleased(row.id),
        ActionModel::CreateAlert(release_alert_model(row.ip_address, ReleaseCause::Manual)),
        notify_model("ip ban release"@),
    ]
}

/// Whether the address of the row at `i` occurs in a row before it.
pub open spec fn seen_before(rows: Seq<BlockedModel>, i: int) -> bool {
    exists|j: int| 0 <= j < i && (#[trigger] rows[j]).ip_address == rows[i].ip_address
}

/// What is done once for an address whose ban has expired.
pub open spec fn expiry_release(ip: Seq<char>) -> Seq<ActionModel> {
    seq![
        ActionModel::FirewallUnblock(ip),
        ActionModel::CreateAlert(release_alert_model(ip, ReleaseCause::Expired)),
        notify_model("ip ban release"@),
    ]
}

/// Ending the bans of expired rows: every row is marked, and at the first row of each address
/// that address is released.
pub open spec fn expiry_actions(rows: Seq<BlockedModel>) -> Seq<ActionModel>
    decreases rows.len(),
{
    if rows.len() == 0 {
        seq![]
    } else {
        let last = rows.last();
        expiry_actions(rows.drop_last()).push(ActionModel::MarkReleased(last.id)) + if seen_before(
            rows,
            rows.len() - 1,
        ) {
            seq![]
        } else {
            expiry_release(last.ip_address)
        }
    }
}

/// The addresses of the rows.
pub open spec fn addresses(rows: Seq<BlockedModel>) -> Set<Seq<char>>
    decreases rows.len(),
{
    if rows.len() == 0 {
        Set::empty()
    } else {
        addresses(rows.drop_last()).insert(rows.last().ip_address)
    }
}

pub proof fn lemma_addresses(rows: Seq<BlockedModel>)
    ensures
        addresses(rows).finite(),
        addresses(rows).len() <= rows.len(),
        forall|ip: Seq<char>| #[trigger]
            addresses(rows).contains(ip) <==> exists|j: int|
                0 <= j < rows.len() && (#[trigger] rows[j]).ip_address == ip,
    decreases rows.len(),
{
    if rows.len() > 0 {
        let before = rows.drop_last();
        lemma_addresses(before);
        assert forall|ip: Seq<char>| #[trigger]
            addresses(rows).contains(ip) <==> exists|j: int|
                0 <= j < rows.len() && (#[trigger] rows[j]).ip_address == ip by {
            if addresses(before).contains(ip) {
                let j = choose|j: int|
                    0 <= j < before.len() && (#[trigger] before[j]).ip_address == ip;
                assert(rows[j] == before[j]);
            }
            if exists|j: int| 0 <= j < rows.len() && (#[trigger] rows[j]).ip_address == ip {
                let j = choose|j: int| 0 <= j < rows.len() && (#[trigger] rows[j]).ip_address == ip;
                if j < before.len() {
                    assert(before[j] == rows[j]);
                }
            }
        }
    }
}

/// Whether the text is in the list.
fn is_listed(list: &Vec<Vec<char>>, text: &Vec<char>) -> (r: bool)
    ensures
        r == exists|k: int| 0 <= k < list@.len() && (#[trigger] list@[k])@ == text@,
{
    let mut k: usize = 0;
    while k < list.len()
        invariant
            k <= list@.len(),
            forall|x: int| 0 <= x < k ==> (#[trigger] list@[x])@ != text@,
        decreases list@.len() - k,
    {
        if same_text(list[k].as_slice(), text.as_slice()) {
            return true;
        }
        k += 1;
    }
    false
}

impl IpBanEngine {
    /// Releases a ban ahead of its expiry, given the active block of the address.
    ///
    /// `None` when the address has no active block, so callers can answer that there is none
    /// rather than pretending something was undone.
    pub fn unban_ip(&self, active: &Option<BlockedOffense>) -> (r: Option<Vec<Action>>)
        ensures
            match (r, *active) {
                (Some(actions), Some(row)) => action_models(actions@) == manual_release(row@),
                (None, None) => true,
                _ => false,
            },
    {
        match active {
            None => None,
            Some(offense) => {
                let mut actions: Vec<Action> = Vec::new();
                push_action(&mut actions, Action::FirewallUnblock(offense.ip_address.clone()));
                push_action(&mut actions, Action::MarkReleased(offense.id.clone()));
                push_action(
                    &mut actions,
                    Action::CreateAlert(
                        release_alert(offense.ip_address.as_str(), ReleaseCause::Manual),
                    ),
                );
                push_action(&mut actions, notify("ip ban release"));
                assert(action_models(actions@) =~= manual_release(offense@));
                Some(actions)
            },
        }
    }

    /// Releases every ban whose window has passed, given the rows of those bans.
    ///
    /// Gives what is to be done, and the number of addresses released, not the number of rows:
    /// one address may have several expired rows, and releasing per row would mean one firewall
    /// call and one notification each.
    pub fn unban_expired(&self, expired: &[BlockedOffense]) -> (r: (Vec<Action>, usize))
        ensures
            action_models(r.0@) == expiry_actions(blocked_models(expired@)),
            r.1 == addresses(blocked_models(expired@)).len(),
    {
        let ghost rows = blocked_models(expired@);
        let mut actions: Vec<Action> = Vec::new();
        let mut released: usize = 0;
        let mut handled: Vec<Vec<char>> = Vec::new();
        let mut i: usize = 0;
        assert(action_models(actions@) =~= expiry_actions(rows.take(0)));
        while i < expired.len()
            invariant
                rows == blocked_models(expired@),
                i <= expired@.len(),
                released <= i,
                action_models(actions@) == expiry_actions(rows.take(i as int)),
                released == addresses(rows.take(i as int)).len(),
                forall|k: int|
                    0 <= k < handled@.len() ==> addresses(rows.take(i as int)).contains(
                        (#[trigger] handled@[k])@,
                    ),
                forall|ip: Seq<char>| #[trigger]
                    addresses(rows.take(i as int)).contains(ip) ==> exists|k: int|
                        0 <= k < handled@.len() && (#[trigger] handled@[k])@ == ip,
            decreases expired@.len() - i,
        {
            let ghost done = rows.take(i as int);
            let ghost next = rows.take(i + 1);
            let offense = &expired[i];
            proof {
                assert(next.drop_last() =~= done);
                assert(next.last() == offense@);
                lemma_addresses(done);
                lemma_addresses(next);
                lemma_seen_before(next);
            }
            push_action(&mut actions, Action::MarkReleased(offense.id.clone()));
            let ip = chars_of(offense.ip_address.as_str());
            let known = is_listed(&handled, &ip);
            assert(known == addresses(done).contains(offense@.ip_address));
            if known {
                assert(addresses(next) =~= addresses(done));
                assert(action_models(actions@) =~= expiry_actions(next));
            } else {
                push_action(&mut actions, Action::FirewallUnblock(offense.ip_address.clone()));
                push_action(
                    &mut actions,
                    Action::CreateAlert(
                        release_alert(offense.ip_address.as_str(), ReleaseCause::Expired),
                    ),
                );
                push_action(&mut actions, notify("ip ban release"));
                assert(action_models(actions@) =~= expiry_actions(next));
                let ghost before = handled@;
                handled.push(ip);
                released += 1;
                proof {
                    assert(handled@.last()@ == offense@.ip_address);
                    assert forall|x: Seq<char>| #[trigger]
                        addresses(next).contains(x) implies exists|k: int|
                        0 <= k < handled@.len() && (#[trigger] handled@[k])@ == x by {
                        if x == offense@.ip_address {
                            assert(handled@[handled@.len() - 1]@ == x);
                        } else {
                            assert(addresses(done).contains(x));
                            let k = choose|k: int|
                                0 <= k < before.len() && (#[trigger] before[k])@ == x;
                            assert(handled@[k] == before[k]);
                        }
                    }
                    assert forall|k: int| 0 <= k < handled@.len() implies addresses(next).contains(
                        (#[trigger] handled@[k])@,
                    ) by {
                        if k < before.len() {
                            assert(handled@[k] == before[k]);
                            assert(addresses(done).contains(before[k]@));
                        }
                    }
                }
            }
            i += 1;
        }
        assert(rows.take(rows.len() as int) =~= rows);
        (actions, released)
    }
}

/// How often the action occurs in the list.
pub open spec fn count_of(actions: Seq<ActionModel>, action: ActionModel) -> int
    decreases actions.len(),
{
    if actions.len() == 0 {
        0
    } else {
        count_of(actions.drop_last(), action) + if actions.last() == action {
            1int
        } else {
            0
        }
    }
}

proof fn lemma_count_concat(a: Seq<ActionModel>, b: Seq<ActionModel>, action: ActionModel)
    ensures
        count_of(a + b, action) == count_of(a, action) + count_of(b, action),
    decreases b.len(),
{
    if b.len() == 0 {
        assert(a + b =~= a);
    } else {
        assert((a + b).drop_last() =~= a + b.drop_last());
        lemma_count_concat(a, b.drop_last(), action);
    }
}

proof fn lemma_count_push(a: Seq<ActionModel>, last: ActionModel, action: ActionModel)
    ensures
        count_of(a.push(last), action) == count_of(a, action) + if last == action {
            1int
        } else {
            0
        },
{
    assert(a.push(last).drop_last() =~= a);
}

proof fn lemma_release_alerts_differ(ip: Seq<char>, other: Seq<char>, cause: ReleaseCause)
    requires
        release_alert_model(ip, cause) == release_alert_model(other, cause),
    ensures
        ip == other,
{
    let lead = "Released IP ban for "@;
    assert((lead + ip).skip(lead.len() as int) =~= ip);
    assert((lead + other).skip(lead.len() as int) =~= other);
}

proof fn lemma_count_expiry_release(ip: Seq<char>, action: ActionModel)
    ensures
        count_of(expiry_release(ip), action) == (if action == ActionModel::FirewallUnblock(ip) {
            1int
        } else {
            0
        }) + (if action == ActionModel::CreateAlert(
            release_alert_model(ip, ReleaseCause::Expired),
        ) {
            1int
        } else {
            0
        }) + (if action == notify_model("ip ban release"@) {
            1int
        } else {
            0
        }),
{
    let none = Seq::<ActionModel>::empty();
    let unblock = ActionModel::FirewallUnblock(ip);
    let alert = ActionModel::CreateAlert(release_alert_model(ip, ReleaseCause::Expired));
    let note = notify_model("ip ban release"@);
    lemma_count_push(none, unblock, action);
    lemma_count_push(none.push(unblock), alert, action);
    lemma_count_push(none.push(unblock).push(alert), note, action);
    assert(expiry_release(ip) =~= none.push(unblock).push(alert).push(note));
}

proof fn lemma_seen_before(rows: Seq<BlockedModel>)
    requires
        rows.len() > 0,
    ensures
        seen_before(rows, rows.len() - 1) <==> addresses(rows.drop_last()).contains(
            rows.last().ip_address,
        ),
{
    let before = rows.drop_last();
    lemma_addresses(before);
    if seen_before(rows, rows.len() - 1) {
        let j = choose|j: int|
            0 <= j < rows.len() - 1 && (#[trigger] rows[j]).ip_address == rows[rows.len()
                - 1].ip_address;
        assert(before[j] == rows[j]);
    }
    if addresses(before).contains(rows.last().ip_address) {
        let j = choose|j: int|
            0 <= j < before.len() && (#[trigger] before[j]).ip_address == rows.last().ip_address;
        assert(rows[j] == before[j]);
    }
}

/// One address, one release: however many rows an address has, it is unblocked once and one
/// alert is raised for it, and for an address without a row neither happens. As many alerts are
/// sent out as there are addresses.
pub proof fn law_one_release_per_address(rows: Seq<BlockedModel>, ip: Seq<char>)
    ensures
        ({
            let actions = expiry_actions(rows);
            let times = if addresses(rows).contains(ip) {
                1int
            } else {
                0
            };
            &&& count_of(actions, ActionModel::FirewallUnblock(ip)) == times
            &&& count_of(
                actions,
                ActionModel::CreateAlert(release_alert_model(ip, ReleaseCause::Expired)),
            ) == times
            &&& count_of(actions, notify_model("ip ban release"@)) == addresses(rows).len()
        }),
    decreases rows.len(),
{
    if rows.len() > 0 {
        let before = rows.drop_last();
        let last = rows.last();
        law_one_release_per_address(before, ip);
        lemma_addresses(before);
        lemma_seen_before(rows);
        let mark = ActionModel::MarkReleased(last.id);
        let release = if seen_before(rows, rows.len() - 1) {
            seq![]
        } else {
            expiry_release(last.ip_address)
        };
        let unblock = ActionModel::FirewallUnblock(ip);
        let alert = ActionModel::CreateAlert(release_alert_model(ip, ReleaseCause::Expired));
        let note = notify_model("ip ban release"@);
        let marked = expiry_actions(before).push(mark);
        lemma_count_push(expiry_actions(before), mark, unblock);
        lemma_count_push(expiry_actions(before), mark, alert);
        lemma_count_push(expiry_actions(before), mark, note);
        lemma_count_concat(marked, release, unblock);
        lemma_count_concat(marked, release, alert);
        lemma_count_concat(marked, release, note);
        lemma_count_expiry_release(last.ip_address, unblock);
        lemma_count_expiry_release(last.ip_address, alert);
        lemma_count_expiry_release(last.ip_address, note);
        if seen_before(rows, rows.len() - 1) {
            assert(addresses(rows) =~= addresses(before));
        }
        if release_alert_model(ip, ReleaseCause::Expired) == release_alert_model(
            last.ip_address,
            ReleaseCause::Expired,
        ) {
            lemma_release_alerts_differ(ip, last.ip_address, ReleaseCause::Expired);
        }
    }
}

/// Every expired row is marked as released, also where its address was released before.
pub proof fn law_every_expired_row_is_marked(rows: Seq<BlockedModel>, i: int)
    requires
        0 <= i < rows.len(),
    ensures
        expiry_actions(rows).contains(ActionModel::MarkReleased(rows[i].id)),
    decreases rows.len(),
{
    let before = rows.drop_last();
    let mark = ActionModel::MarkReleased(rows[i].id);
    let earlier = expiry_actions(before);
    let all = expiry_actions(rows);
    if i == rows.len() - 1 {
        assert(all[earlier.len() as int] == mark);
    } else {
        law_every_expired_row_is_marked(before, i);
        let k = choose|k: int| 0 <= k < earlier.len() && earlier[k] == mark;
        assert(all[k] == mark);
    }
}

/// Rows are handled in order: all that is done for the first rows of a list comes before what is
/// done for the rows behind them, and does not depend on those.
pub proof fn law_rows_are_handled_in_order(rows: Seq<BlockedModel>, n: int)
    requires
        0 <= n <= rows.len(),
    ensures
        expiry_actions(rows.take(n)).is_prefix_of(expiry_actions(rows)),
    decreases rows.len(),
{
    if n == rows.len() {
        assert(rows.take(n) =~= rows);
    } else {
        let before = rows.drop_last();
        law_rows_are_handled_in_order(before, n);
        assert(before.take(n) =~= rows.take(n));
    }
}

/// In a release by hand the firewall comes first: wherever the offense is marked or the release
/// announced, the address was unblocked at the firewall before.
pub proof fn law_manual_release_follows_the_firewall(row: BlockedModel, k: int)
    requires
        0 <= k < manual_release(row).len(),
        ({
            let action = manual_release(row)[k];
            action is MarkReleased || action is CreateAlert || action is Notify
        }),
    ensures
        manual_release(row).take(k).contains(ActionModel::FirewallUnblock(row.ip_address)),
{
    assert(manual_release(row).take(k)[0] == ActionModel::FirewallUnblock(row.ip_address));
}

/// A release by hand that the firewall refuses is never marked or announced: nothing is done at
/// all.
pub proof fn law_refused_release_leaves_no_trace(row: BlockedModel, succeeds: Seq<bool>)
    requires
        succeeds.len() == manual_release(row).len(),
        !succeeds[0],
    ensures
        done(manual_release(row), succeeds) == Seq::<ActionModel>::empty(),
{
    law_done_when_one_fails(manual_release(row), succeeds, 0);
}

/// When bans expire, too, an address is unblocked at the firewall before its release is
/// announced. The row was marked before that.
pub proof fn law_expiry_alert_follows_the_firewall(rows: Seq<BlockedModel>, ip: Seq<char>, k: int)
    requires
        0 <= k < expiry_actions(rows).len(),
        expiry_actions(rows)[k] == ActionModel::CreateAlert(
            release_alert_model(ip, ReleaseCause::Expired),
        ),
    ensures
        expiry_actions(rows).take(k).contains(ActionModel::FirewallUnblock(ip)),
        exists|i: int|
            0 <= i < rows.len() && (#[trigger] rows[i]).ip_address == ip && expiry_actions(
                rows,
            ).take(k).contains(ActionModel::MarkReleased(rows[i].id)),
    decreases rows.len(),
{
    let before = rows.drop_last();
    let last = rows.last();
    let earlier = expiry_actions(before);
    let all = expiry_actions(rows);
    let n = earlier.len() as int;
    if k < n {
        assert(earlier[k] == all[k]);
        law_expiry_alert_follows_the_firewall(before, ip, k);
        assert(all.take(k) =~= earlier.take(k));
        let i = choose|i: int|
            0 <= i < before.len() && (#[trigger] before[i]).ip_address == ip && earlier.take(
                k,
            ).contains(ActionModel::MarkReleased(before[i].id));
        assert(rows[i] == before[i]);
    } else {
        let release = expiry_release(last.ip_address);
        assert(all[n] == ActionModel::MarkReleased(last.id));
        assert(!seen_before(rows, rows.len() - 1));
        assert(all[n + 1] == release[0]);
        assert(all[n + 2] == release[1]);
        assert(all[n + 3] == release[2]);
        assert(k == n + 2);
        lemma_release_alerts_differ(ip, last.ip_address, ReleaseCause::Expired);
        assert(all.take(k)[n] == ActionModel::MarkReleased(last.id));
        assert(all.take(k)[n + 1] == ActionModel::FirewallUnblock(ip));
        assert(rows[rows.len() - 1].ip_address == ip);
    }
}

} // verus!
