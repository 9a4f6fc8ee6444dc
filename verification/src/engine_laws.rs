//! What the engine decides, in terms of addresses, ranges, times and single actions.

use crate::action::{action_models, ActionModel};
use crate::address::{dotted_address, law_dotted_round_trip, Ipv4Addr};
use crate::alert::{OffenseInput, OffenseModel};
use crate::alert_laws::{lemma_ban_alert_tells, tells_of_ban};
use crate::budget::budget_step;
use crate::clock::{as_signed, rfc3339_text, Timestamp};
use crate::config::IpBanConfig;
use crate::config_laws::{
    law_ranges_hold_what_shares_a_prefix, law_ranges_that_cannot_be_searched, shares_prefix,
};
use crate::engine::{
    ban_actions, can_search_allowlist, count_step, count_step_recent, first_step, is_protected,
    lookup_step, IpBanEngine, RecordStep, RecordStepModel,
};
use crate::ident::is_v4_text;
use vstd::prelude::*;

verus! {

/// Whether the text is the dotted notation of an address that shares the prefix of the range.
pub open spec fn spells_address_in(text: Seq<char>, range: (Ipv4Addr, u8)) -> bool {
    exists|addr: Ipv4Addr| text == #[trigger] addr.dotted() && shares_prefix(range, addr)
}

proof fn lemma_spelled_address(text: Seq<char>, addr: Ipv4Addr)
    requires
        text == addr.dotted(),
    ensures
        dotted_address(text) == Some(addr),
        forall|other: Ipv4Addr| text == #[trigger] other.dotted() ==> other == addr,
{
    law_dotted_round_trip(text, addr);
    assert forall|other: Ipv4Addr| text == #[trigger] other.dotted() implies other == addr by {
        law_dotted_round_trip(text, other);
    }
}

/// A text is protected exactly where it is the dotted notation of an address that shares the
/// prefix of some allowlisted range.
pub proof fn law_protection_follows_the_ranges(config: IpBanConfig, text: Seq<char>)
    ensures
        is_protected(config, text) <==> exists|i: int|
            0 <= i < config.allowlist_ranges@.len() && spells_address_in(
                text,
                #[trigger] config.allowlist_ranges@[i],
            ),
{
    let ranges = config.allowlist_ranges@;
    if is_protected(config, text) {
        let addr = dotted_address(text)->0;
        law_dotted_round_trip(text, addr);
        law_ranges_hold_what_shares_a_prefix(ranges, addr);
        let i = choose|i: int|
            0 <= i < ranges.len() && shares_prefix(#[trigger] ranges[i], addr);
        assert(spells_address_in(text, ranges[i]));
    }
    if exists|i: int| 0 <= i < ranges.len() && spells_address_in(text, #[trigger] ranges[i]) {
        let i = choose|i: int|
            0 <= i < ranges.len() && spells_address_in(text, #[trigger] ranges[i]);
        let addr = choose|addr: Ipv4Addr|
            text == #[trigger] addr.dotted() && shares_prefix(ranges[i], addr);
        law_dotted_round_trip(text, addr);
        law_ranges_hold_what_shares_a_prefix(ranges, addr);
        assert(shares_prefix(ranges[i], addr));
    }
}

/// The first step for an offense follows the allowlisted ranges: it ends there exactly where the
/// address is the dotted notation of an address that shares the prefix of one of them. For any
/// other text, whatever ranges there are, the next step looks for an active block of it.
pub proof fn law_first_step_follows_the_ranges(config: IpBanConfig, offense: OffenseModel)
    ensures
        first_step(config, offense) == (if exists|i: int|
            0 <= i < config.allowlist_ranges@.len() && spells_address_in(
                offense.ip_address,
                #[trigger] config.allowlist_ranges@[i],
            ) {
            RecordStepModel::Allowlisted
        } else {
            RecordStepModel::FindActiveBlock(offense.ip_address)
        }),
{
    law_protection_follows_the_ranges(config, offense.ip_address);
}

/// So does the engine: it leaves an offense at once exactly where its address shares the prefix of
/// an allowlisted range, and otherwise asks for an active block of that very address.
pub proof fn law_record_offense_follows_the_ranges(
    engine: &IpBanEngine,
    offense: &OffenseInput,
    step: RecordStep,
)
    requires
        call_ensures(IpBanEngine::record_offense, (engine, offense), step),
    ensures
        ({
            let ranges = engine.settings().allowlist_ranges@;
            let allowed = exists|i: int|
                0 <= i < ranges.len() && spells_address_in(
                    offense.ip_address@,
                    #[trigger] ranges[i],
                );
            &&& allowed ==> step is Allowlisted
            &&& !allowed ==> (step matches RecordStep::FindActiveBlock(ip) && ip@
                == offense.ip_address@)
        }),
{
    law_first_step_follows_the_ranges(engine.settings(), offense@);
}

/// The engine cannot be asked about a text exactly where it is the dotted notation of an address
/// for which a prefix longer than an address comes before any that it shares.
pub proof fn law_engine_can_be_asked(engine: &IpBanEngine, text: &str, can: bool)
    requires
        call_ensures(IpBanEngine::can_record, (engine, text), can),
    ensures
        can == can_search_allowlist(engine.settings(), text@),
        !can <==> exists|addr: Ipv4Addr, i: int|
            #![trigger addr.dotted(), engine.settings().allowlist_ranges@[i]]
            {
                let ranges = engine.settings().allowlist_ranges@;
                &&& text@ == addr.dotted()
                &&& 0 <= i < ranges.len()
                &&& ranges[i].1 > 32
                &&& forall|j: int| 0 <= j < i ==> !shares_prefix(#[trigger] ranges[j], addr)
            },
{
    let ranges = engine.settings().allowlist_ranges@;
    if !can {
        let addr = dotted_address(text@)->0;
        law_dotted_round_trip(text@, addr);
        law_ranges_that_cannot_be_searched(ranges, addr);
        let i = choose|i: int|
            0 <= i < ranges.len() && (#[trigger] ranges[i]).1 > 32 && forall|j: int|
                0 <= j < i ==> !shares_prefix(#[trigger] ranges[j], addr);
        assert(text@ == addr.dotted() && ranges[i].1 > 32);
    }
    assert forall|addr: Ipv4Addr, i: int|
        #![trigger addr.dotted(), ranges[i]]
        text@ == addr.dotted() && 0 <= i < ranges.len() && ranges[i].1 > 32 && (forall|j: int|
            0 <= j < i ==> !shares_prefix(#[trigger] ranges[j], addr)) implies !can by {
        lemma_spelled_address(text@, addr);
        law_ranges_that_cannot_be_searched(ranges, addr);
    }
}

/// An address with an active block ends the handling of the offense.
pub proof fn law_blocked_address_ends_the_handling(
    engine: &IpBanEngine,
    offense: &OffenseInput,
    step: RecordStep,
)
    requires
        call_ensures(IpBanEngine::after_block_lookup, (engine, offense, true), step),
    ensures
        step is AlreadyBlocked,
{
}

/// Without an active block the offense is recorded as it was detected, with the window that is set
/// reaching back from now, unless that leaves the range of times.
pub proof fn law_offense_is_recorded_as_detected(
    engine: &IpBanEngine,
    offense: &OffenseInput,
    now: Timestamp,
    id: String,
    step: RecordStep,
)
    requires
        call_ensures(IpBanEngine::occurrence_at, (engine, offense, now, id), step),
    ensures
        ({
            let back = as_signed(engine.settings().find_time_secs);
            let in_range = -8_334_601_228_800 <= now.secs - back <= 8_210_266_876_799;
            &&& in_range ==> (step@ matches RecordStepModel::RecordOccurrence {
                offense: record,
                since,
            } && {
                &&& record.id == id@
                &&& record.ip_address == offense.ip_address@
                &&& record.source_type == offense.source_type@
                &&& record.reason == offense.reason@
                &&& record.first_seen == now
                &&& record.container_id == offense@.container_id
                &&& record.metadata matches Some((path, line)) && path == offense@.source_path
                    && line == offense@.sample_line
                &&& since.secs == now.secs - back
                &&& since.nanos == now.nanos
            })
            &&& !in_range ==> step@ == RecordStepModel::TimeOverflow(seq![])
        }),
{
}

/// Whatever the time is, the step that follows the search is one of these two for an address
/// without an active block, and the record is made at the time at which the window ends.
pub proof fn law_unblocked_address_is_recorded(
    engine: &IpBanEngine,
    offense: &OffenseInput,
    step: RecordStep,
)
    requires
        call_ensures(IpBanEngine::after_block_lookup, (engine, offense, false), step),
    ensures
        step@ matches RecordStepModel::RecordOccurrence { offense: record, since } ==> {
            &&& record.ip_address == offense.ip_address@
            &&& record.source_type == offense.source_type@
            &&& record.reason == offense.reason@
            &&& record.container_id == offense@.container_id
            &&& record.metadata == Some((offense@.source_path, offense@.sample_line))
            &&& record.id.len() == 36
            &&& record.first_seen.valid()
            &&& since.secs == record.first_seen.secs - as_signed(engine.settings().find_time_secs)
            &&& since.nanos == record.first_seen.nanos
        },
        !(step@ is RecordOccurrence) ==> step@ == RecordStepModel::TimeOverflow(seq![]),
{
    let (now, id) = choose|now: Timestamp, id: Seq<char>|
        now.valid() && now.secs >= 0 && is_v4_text(id) && step@
            == #[trigger] lookup_step(engine.settings(), offense@, false, now, id);
}

/// An address with an active block is neither recorded nor counted, whatever the time.
pub proof fn law_block_comes_before_the_time(
    config: IpBanConfig,
    offense: OffenseModel,
    now: Timestamp,
    id: Seq<char>,
)
    ensures
        lookup_step(config, offense, true, now, id) == RecordStepModel::AlreadyBlocked,
{
}

/// How often an action of the list meets the condition.
pub open spec fn count_where(actions: Seq<ActionModel>, is: spec_fn(ActionModel) -> bool) -> int
    decreases actions.len(),
{
    if actions.len() == 0 {
        0
    } else {
        (if is(actions[0]) {
            1int
        } else {
            0
        }) + count_where(actions.drop_first(), is)
    }
}

pub proof fn lemma_count_four(actions: Seq<ActionModel>, is: spec_fn(ActionModel) -> bool)
    requires
        actions.len() == 4,
    ensures
        count_where(actions, is) == (if is(actions[0]) {
            1int
        } else {
            0
        }) + (if is(actions[1]) {
            1int
        } else {
            0
        }) + (if is(actions[2]) {
            1int
        } else {
            0
        }) + (if is(actions[3]) {
            1int
        } else {
            0
        }),
{
    reveal_with_fuel(count_where, 5);
    let one = actions.drop_first();
    let two = one.drop_first();
    let three = two.drop_first();
    assert(one[0] == actions[1] && two[0] == actions[2] && three[0] == actions[3]);
}

/// A ban blocks the address at the firewall, marks its offenses of that kind as blocked until
/// then, and raises an alert that tells of it, once each and in this order. The alert is sent out
/// right after it is stored, once. Nothing is unblocked, nothing is marked as released, and nothing
/// else is done.
pub proof fn law_ban_blocks_marks_and_alerts(
    offense: OffenseModel,
    offense_count: int,
    until: Timestamp,
    until_text: Seq<char>,
)
    ensures
        ({
            let actions = ban_actions(offense, offense_count, until, until_text);
            let block = ActionModel::FirewallBlock(offense.ip_address);
            let mark = ActionModel::MarkBlocked {
                ip_address: offense.ip_address,
                source_type: offense.source_type,
                blocked_until: until,
            };
            let send = ActionModel::Notify {
                env_toggle: "STACKDOG_NOTIFY_IP_BAN_ACTIONS"@,
                action_name: "ip ban"@,
            };
            &&& count_where(actions, |a: ActionModel| a is FirewallUnblock) == 0
            &&& count_where(actions, |a: ActionModel| a is MarkReleased) == 0
            &&& count_where(actions, |a: ActionModel| a is FirewallBlock) == 1
            &&& count_where(actions, |a: ActionModel| a is MarkBlocked) == 1
            &&& count_where(actions, |a: ActionModel| a is CreateAlert) == 1
            &&& count_where(actions, |a: ActionModel| a is Notify) == 1
            &&& actions.contains(block) && actions.contains(mark) && actions.contains(send)
            &&& forall|i: int, k: int|
                0 <= i < actions.len() && 0 <= k < actions.len() && (#[trigger] actions[i])
                    is FirewallBlock && !((#[trigger] actions[k]) is FirewallBlock) ==> i < k
            &&& forall|i: int, k: int|
                0 <= i < actions.len() && 0 <= k < actions.len() && (#[trigger] actions[i])
                    is MarkBlocked && (#[trigger] actions[k]) is CreateAlert ==> i < k
            &&& forall|i: int|
                0 <= i < actions.len() && (#[trigger] actions[i]) is CreateAlert ==> i + 1
                    < actions.len() && actions[i + 1] == send
            &&& forall|i: int|
                0 <= i < actions.len() && (#[trigger] actions[i]) is CreateAlert ==> tells_of_ban(
                    actions[i]->CreateAlert_0,
                    offense,
                    offense_count,
                    until_text,
                )
        }),
{
    let actions = ban_actions(offense, offense_count, until, until_text);
    lemma_ban_alert_tells(offense, offense_count, until_text);
    lemma_count_four(actions, |a: ActionModel| a is FirewallUnblock);
    lemma_count_four(actions, |a: ActionModel| a is MarkReleased);
    lemma_count_four(actions, |a: ActionModel| a is FirewallBlock);
    lemma_count_four(actions, |a: ActionModel| a is MarkBlocked);
    lemma_count_four(actions, |a: ActionModel| a is CreateAlert);
    lemma_count_four(actions, |a: ActionModel| a is Notify);
    assert(actions[0] == ActionModel::FirewallBlock(offense.ip_address));
    assert(actions.contains(actions[0]));
    assert(actions.contains(actions[1]));
    assert(actions.contains(actions[3]));
}

/// After the count: too few offenses end the handling, and with enough of them the ceiling
/// decides. Where it allows a ban, the address is banned until the time that is set has passed; a
/// ban whose end leaves the range of times blocks the address at the firewall and does no more.
pub proof fn law_count_decides(
    config: IpBanConfig,
    recent: Seq<Timestamp>,
    offense: OffenseModel,
    offense_count: int,
    now: Timestamp,
)
    ensures
        ({
            let step = count_step(config, recent, offense, offense_count, now);
            let after = count_step_recent(config, recent, offense_count, now);
            let (granted_recent, granted) = budget_step(
                config.max_bans_per_minute as int,
                recent,
                now,
            );
            let end = now.secs + as_signed(config.ban_time_secs);
            let enough = offense_count >= config.max_retries;
            let in_range = -8_334_601_228_800 <= end <= 8_210_266_876_799;
            &&& !enough ==> step is BelowThreshold && after == recent
            &&& enough ==> after == granted_recent
            &&& enough && !granted ==> step is CeilingReached
            &&& enough && granted && !in_range ==> (step matches RecordStepModel::TimeOverflow(
                actions,
            ) && actions.len() == 1 && actions[0] == ActionModel::FirewallBlock(offense.ip_address))
            &&& enough && granted && in_range ==> (step matches RecordStepModel::Perform(actions)
                && exists|until: Timestamp|
                until.secs == end && until.nanos == now.nanos && actions == #[trigger] ban_actions(
                    offense,
                    offense_count,
                    until,
                    rfc3339_text(until.secs, until.nanos),
                ))
        }),
{
    let step = count_step(config, recent, offense, offense_count, now);
    let end = now.secs + as_signed(config.ban_time_secs);
    if step is Perform {
        let until = Timestamp { secs: end as i64, nanos: now.nanos };
        assert(step->Perform_0 == ban_actions(
            offense,
            offense_count,
            until,
            rfc3339_text(until.secs, until.nanos),
        ));
    }
}

/// An offense leads to a ban where the count reaches the threshold, whether or not the ceiling
/// allows it, and to none where it ends before; while more is to be asked, or where a time leaves
/// its range, nothing is answered.
pub proof fn law_answers(step: &RecordStep, answer: Option<bool>)
    requires
        call_ensures(RecordStep::answer, (step,), answer),
    ensures
        answer == Some(true) <==> step is CeilingReached || step is Perform,
        answer == Some(false) <==> step is Allowlisted || step is AlreadyBlocked
            || step is BelowThreshold,
        answer is None <==> step is FindActiveBlock || step is RecordOccurrence
            || step is TimeOverflow,
{
}

/// A step's texts are those of its parts.
pub proof fn law_steps_show_their_parts(step: RecordStep)
    ensures
        step is Allowlisted <==> step@ is Allowlisted,
        step is FindActiveBlock <==> step@ is FindActiveBlock,
        step is AlreadyBlocked <==> step@ is AlreadyBlocked,
        step is RecordOccurrence <==> step@ is RecordOccurrence,
        step is BelowThreshold <==> step@ is BelowThreshold,
        step is CeilingReached <==> step@ is CeilingReached,
        step is Perform <==> step@ is Perform,
        step is TimeOverflow <==> step@ is TimeOverflow,
        step matches RecordStep::FindActiveBlock(ip) ==> step@->FindActiveBlock_0 == ip@,
        step matches RecordStep::RecordOccurrence { offense, since } ==> step@->offense == offense@
            && step@->since == since,
        step matches RecordStep::Perform(actions) ==> step@->Perform_0 == action_models(actions@),
        step matches RecordStep::TimeOverflow(actions) ==> step@->TimeOverflow_0 == action_models(
            actions@,
        ),
{
}

} // verus!
