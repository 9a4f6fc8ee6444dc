//! An offense from its detection to the answer, over all steps of the engine.

use crate::action::{notify_model, ActionModel, NewOffenseModel};
use crate::alert::OffenseModel;
use crate::budget::{
    budget_step, grants_between, is_expired, lemma_drop_expired, lemma_grants_prefix, WINDOW_SECS,
};
use crate::clock::{as_signed, rfc3339_text, secs_in_range, Timestamp};
use crate::config::IpBanConfig;
use crate::engine::{
    ban_actions, ban_end, ban_end_in_range, count_step, count_step_recent, firewall_block,
    first_step, is_protected, lookup_step, occurrence_model, RecordStepModel,
};
use crate::progress::{
    done, first_failure, is_essential, law_done_when_one_fails, lemma_first_failure,
};
use vstd::prelude::*;

verus! {

/// What comes of an offense.
pub struct Handling {
    /// What is recorded, and the start of the window in which offenses are counted.
    pub recorded: Option<(NewOffenseModel, Timestamp)>,
    /// What is done.
    pub actions: Seq<ActionModel>,
    /// Whether the offense led to a ban; `None` where a time lies out of range, which ends the
    /// handling once the actions are done.
    pub answer: Option<bool>,
    /// The blocks that the engine remembers afterwards.
    pub recent: Seq<Timestamp>,
}

/// What the surroundings answer on the way.
pub struct Answers {
    /// Whether the address has an active block.
    pub blocked: bool,
    /// The number of offenses, this one included.
    pub offense_count: int,
    /// The time.
    pub now: Timestamp,
    /// The identifier for a new record.
    pub id: Seq<char>,
}

/// What is done in a step.
pub open spec fn step_actions(step: RecordStepModel) -> Seq<ActionModel> {
    match step {
        RecordStepModel::Perform(actions) => actions,
        RecordStepModel::TimeOverflow(actions) => actions,
        _ => seq![],
    }
}

/// All steps for one offense, one after the other.
pub open spec fn handle(
    config: IpBanConfig,
    recent: Seq<Timestamp>,
    offense: OffenseModel,
    answers: Answers,
) -> Handling {
    let first = first_step(config, offense);
    if first is FindActiveBlock {
        let second = lookup_step(config, offense, answers.blocked, answers.now, answers.id);
        match second {
            RecordStepModel::RecordOccurrence { offense: record, since } => {
                let third = count_step(config, recent, offense, answers.offense_count, answers.now);
                Handling {
                    recorded: Some((record, since)),
                    actions: step_actions(third),
                    answer: third.answer(),
                    recent: count_step_recent(
                        config,
                        recent,
                        answers.offense_count,
                        answers.now,
                    ),
                }
            },
            _ => Handling {
                recorded: None,
                actions: step_actions(second),
                answer: second.answer(),
                recent,
            },
        }
    } else {
        Handling {
            recorded: None,
            actions: step_actions(first),
            answer: first.answer(),
            recent,
        }
    }
}

/// A protected address is never recorded or banned, whatever the surroundings answer.
pub proof fn law_protected_address_is_left_alone(
    config: IpBanConfig,
    recent: Seq<Timestamp>,
    offense: OffenseModel,
    answers: Answers,
)
    requires
        is_protected(config, offense.ip_address),
    ensures
        handle(config, recent, offense, answers) == (Handling {
            recorded: None,
            actions: seq![],
            answer: Some(false),
            recent,
        }),
{
}

/// An address that is blocked already is neither recorded nor banned again.
pub proof fn law_blocked_address_is_not_recorded_again(
    config: IpBanConfig,
    recent: Seq<Timestamp>,
    offense: OffenseModel,
    answers: Answers,
)
    requires
        answers.blocked,
    ensures
        handle(config, recent, offense, answers) == (Handling {
            recorded: None,
            actions: seq![],
            answer: Some(false),
            recent,
        }),
{
}

/// Any other offense is recorded as it was detected, with the window reaching back from now by
/// the time that is set.
pub proof fn law_offense_is_recorded(
    config: IpBanConfig,
    recent: Seq<Timestamp>,
    offense: OffenseModel,
    answers: Answers,
)
    requires
        !is_protected(config, offense.ip_address),
        !answers.blocked,
        answers.now.valid(),
        secs_in_range(answers.now.secs - as_signed(config.find_time_secs)),
    ensures
        ({
            let h = handle(config, recent, offense, answers);
            &&& h.recorded matches Some((record, since)) && {
                &&& record == occurrence_model(offense, answers.now, answers.id)
                &&& since.valid()
                &&& since.instant() == answers.now.instant() - as_signed(config.find_time_secs)
                    * 1_000_000_000
            }
        }),
{
}

/// Too few offenses lead to no ban, and leave the ceiling as it is.
pub proof fn law_no_ban_below_the_threshold(
    config: IpBanConfig,
    recent: Seq<Timestamp>,
    offense: OffenseModel,
    answers: Answers,
)
    requires
        answers.offense_count < config.max_retries,
    ensures
        ({
            let h = handle(config, recent, offense, answers);
            &&& h.actions == Seq::<ActionModel>::empty()
            &&& h.answer != Some(true)
            &&& h.recent == recent
        }),
{
}

/// Enough offenses by an address that is neither protected nor blocked answer with a ban. It is
/// carried out exactly where the ceiling still allows one.
pub proof fn law_ban_at_the_threshold(
    config: IpBanConfig,
    recent: Seq<Timestamp>,
    offense: OffenseModel,
    answers: Answers,
)
    requires
        !is_protected(config, offense.ip_address),
        !answers.blocked,
        answers.offense_count >= config.max_retries,
        secs_in_range(answers.now.secs - as_signed(config.find_time_secs)),
        ban_end_in_range(config, answers.now),
    ensures
        ({
            let h = handle(config, recent, offense, answers);
            let (after, granted) = budget_step(
                config.max_bans_per_minute as int,
                recent,
                answers.now,
            );
            let until = ban_end(config, answers.now);
            &&& h.answer == Some(true)
            &&& h.recent == after
            &&& h.actions == if granted {
                ban_actions(
                    offense,
                    answers.offense_count,
                    until,
                    rfc3339_text(until.secs, until.nanos),
                )
            } else {
                seq![]
            }
        }),
{
}

/// Whatever is done, is done to the address of the offense, and needs all of these: that the
/// address is not protected, that it is not blocked, that there are enough offenses, and that
/// the ceiling allows a ban.
pub proof fn law_nothing_is_done_without_cause(
    config: IpBanConfig,
    recent: Seq<Timestamp>,
    offense: OffenseModel,
    answers: Answers,
)
    requires
        handle(config, recent, offense, answers).actions.len() > 0,
    ensures
        !is_protected(config, offense.ip_address),
        !answers.blocked,
        answers.offense_count >= config.max_retries,
        budget_step(config.max_bans_per_minute as int, recent, answers.now).1,
        handle(config, recent, offense, answers).actions[0] == ActionModel::FirewallBlock(
            offense.ip_address,
        ),
{
}

/// Where the end of a ban lies out of range, the address is blocked at the firewall all the same,
/// and nothing else is done.
pub proof fn law_overflow_comes_after_the_firewall(
    config: IpBanConfig,
    recent: Seq<Timestamp>,
    offense: OffenseModel,
    answers: Answers,
)
    requires
        !is_protected(config, offense.ip_address),
        !answers.blocked,
        answers.offense_count >= config.max_retries,
        secs_in_range(answers.now.secs - as_signed(config.find_time_secs)),
        !ban_end_in_range(config, answers.now),
        budget_step(config.max_bans_per_minute as int, recent, answers.now).1,
    ensures
        ({
            let h = handle(config, recent, offense, answers);
            &&& h.answer is None
            &&& h.actions == firewall_block(offense)
            &&& h.recent == budget_step(
                config.max_bans_per_minute as int,
                recent,
                answers.now,
            ).0
        }),
{
}

/// In a ban the firewall comes first: wherever a block is stored or announced, the address was
/// blocked at the firewall before.
pub proof fn law_ban_follows_the_firewall(
    offense: OffenseModel,
    offense_count: int,
    until: Timestamp,
    until_text: Seq<char>,
    k: int,
)
    requires
        0 <= k < ban_actions(offense, offense_count, until, until_text).len(),
        ({
            let action = ban_actions(offense, offense_count, until, until_text)[k];
            action is MarkBlocked || action is CreateAlert || action is Notify
        }),
    ensures
        ban_actions(offense, offense_count, until, until_text).take(k).contains(
            ActionModel::FirewallBlock(offense.ip_address),
        ),
{
    let actions = ban_actions(offense, offense_count, until, until_text);
    assert(actions.take(k)[0] == ActionModel::FirewallBlock(offense.ip_address));
}

/// A block that the firewall refuses is never stored or announced: nothing is done at all.
pub proof fn law_refused_block_leaves_no_trace(
    offense: OffenseModel,
    offense_count: int,
    until: Timestamp,
    until_text: Seq<char>,
    succeeds: Seq<bool>,
)
    requires
        succeeds.len() == ban_actions(offense, offense_count, until, until_text).len(),
        !succeeds[0],
    ensures
        done(ban_actions(offense, offense_count, until, until_text), succeeds) == Seq::<
            ActionModel,
        >::empty(),
{
    let actions = ban_actions(offense, offense_count, until, until_text);
    law_done_when_one_fails(actions, succeeds, 0);
}

/// A ban is announced only once it is stored, and its alert is.
pub proof fn law_unstored_ban_is_not_announced(
    offense: OffenseModel,
    offense_count: int,
    until: Timestamp,
    until_text: Seq<char>,
    succeeds: Seq<bool>,
    action_name: Seq<char>,
)
    requires
        succeeds.len() == ban_actions(offense, offense_count, until, until_text).len(),
        done(ban_actions(offense, offense_count, until, until_text), succeeds).contains(
            notify_model(action_name),
        ),
    ensures
        succeeds[0] && succeeds[1] && succeeds[2],
{
    let actions = ban_actions(offense, offense_count, until, until_text);
    lemma_first_failure(actions, succeeds);
    let f = first_failure(actions, succeeds);
    let k = choose|k: int| 0 <= k < f && actions.take(f)[k] == notify_model(action_name);
    assert(actions[k] == notify_model(action_name));
    assert(k == 3);
    assert(is_essential(actions[0]) && is_essential(actions[1]) && is_essential(actions[2]));
}

/// A ban ends as long after now as is set.
pub proof fn law_ban_lasts_as_long_as_set(config: IpBanConfig, now: Timestamp)
    requires
        now.valid(),
        ban_end_in_range(config, now),
    ensures
        ban_end(config, now).valid(),
        ban_end(config, now).instant() == now.instant() + as_signed(config.ban_time_secs)
            * 1_000_000_000,
{
}

/// Offenses that are handled one after the other by an engine that has banned nothing yet: the
/// blocks that it remembers at the end, and for each offense whether its address was blocked.
pub open spec fn series(config: IpBanConfig, events: Seq<(OffenseModel, Answers)>) -> (
    Seq<Timestamp>,
    Seq<bool>,
)
    decreases events.len(),
{
    if events.len() == 0 {
        (seq![], seq![])
    } else {
        let (recent, banned) = series(config, events.drop_last());
        let h = handle(config, recent, events.last().0, events.last().1);
        (h.recent, banned.push(h.actions.len() > 0))
    }
}

/// Whether the clock never goes back between the offenses.
pub open spec fn events_in_order(events: Seq<(OffenseModel, Answers)>) -> bool {
    forall|i: int, j: int|
        0 <= i <= j < events.len() ==> (#[trigger] events[i]).1.now.instant() <= (
        #[trigger] events[j]).1.now.instant()
}

/// The bans since offense `i` are among the last blocks remembered, as long as that offense
/// lies within a window of the last.
proof fn lemma_series_window(config: IpBanConfig, events: Seq<(OffenseModel, Answers)>, i: int)
    requires
        config.max_bans_per_minute > 0,
        events_in_order(events),
        0 <= i <= events.len(),
        i < events.len() ==> !is_expired(events.last().1.now, events[i].1.now),
    ensures
        ({
            let (recent, banned) = series(config, events);
            let c = grants_between(banned, i, events.len() as int);
            &&& banned.len() == events.len()
            &&& recent.len() <= config.max_bans_per_minute
            &&& 0 <= c <= recent.len()
            &&& i < events.len() ==> forall|x: int|
                recent.len() - c <= x < recent.len() ==> (#[trigger] recent[x]).instant()
                    >= events[i].1.now.instant()
        }),
    decreases events.len(),
{
    if events.len() > 0 {
        let before = events.drop_last();
        let now = events.last().1.now;
        let (recent, banned) = series(config, before);
        let h = handle(config, recent, events.last().0, events.last().1);
        let after = h.recent;
        let ban = h.actions.len() > 0;
        let n = before.len() as int;
        assert(events_in_order(before)) by {
            assert forall|x: int, y: int| 0 <= x <= y < before.len() implies (
            #[trigger] before[x]).1.now.instant() <= (#[trigger] before[y]).1.now.instant() by {
                assert(before[x] == events[x] && before[y] == events[y]);
            }
        }
        let k = if i < n {
            i
        } else {
            n
        };
        if i < n {
            assert(before[i] == events[i] && before[n - 1] == events[n - 1]);
            assert(events[n - 1].1.now.instant() <= events[n].1.now.instant());
        }
        lemma_series_window(config, before, k);
        let c = grants_between(banned, k, n);
        let d = lemma_drop_expired(recent, now);
        let kept = recent.skip(d);
        let (stepped, granted) = budget_step(config.max_bans_per_minute as int, recent, now);
        assert(after == recent || after == stepped);
        assert(ban ==> after == stepped && granted);
        if c > 0 {
            let x = recent.len() - c;
            assert(recent[x].instant() >= events[i].1.now.instant());
            assert(!is_expired(now, recent[x]));
            assert(d <= x);
        }
        assert(c <= kept.len());
        lemma_grants_prefix(banned, ban, i, n);
        if i < events.len() {
            assert(grants_between(banned, i, n) == c);
            assert(banned.push(ban)[n] == ban);
            let total = grants_between(banned.push(ban), i, n + 1);
            assert forall|x: int| after.len() - total <= x < after.len() implies (
            #[trigger] after[x]).instant() >= events[i].1.now.instant() by {
                if after == recent && !ban {
                    assert(c > 0);
                    assert(before[i] == events[i]);
                    assert(recent[x].instant() >= before[i].1.now.instant());
                } else if x < kept.len() {
                    assert(after[x] == recent[x + d]);
                    assert(c > 0);
                    assert(before[i] == events[i]);
                } else {
                    assert(after[x] == now);
                    assert(events[i].1.now.instant() <= events[n].1.now.instant());
                }
            }
        }
    }
}

proof fn lemma_series_prefix(
    config: IpBanConfig,
    events: Seq<(OffenseModel, Answers)>,
    end: int,
    i: int,
)
    requires
        0 <= i <= end <= events.len(),
    ensures
        series(config, events).1.len() == events.len(),
        grants_between(series(config, events.take(end)).1, i, end) == grants_between(
            series(config, events).1,
            i,
            end,
        ),
    decreases events.len(),
{
    if end == events.len() {
        assert(events.take(end) =~= events);
        if end > 0 {
            lemma_series_prefix(config, events.drop_last(), 0, 0);
        }
    } else {
        let before = events.drop_last();
        lemma_series_prefix(config, before, end, i);
        assert(before.take(end) =~= events.take(end));
        let (recent, banned) = series(config, before);
        let h = handle(config, recent, events.last().0, events.last().1);
        lemma_grants_prefix(banned, h.actions.len() > 0, i, end);
    }
}

/// The ceiling holds the damage: whatever offenses come in, and whatever the surroundings
/// answer, no minute sees more bans than the ceiling allows, as long as the clock never goes
/// back.
pub proof fn law_bans_stay_under_the_ceiling(
    config: IpBanConfig,
    events: Seq<(OffenseModel, Answers)>,
    i: int,
    j: int,
)
    requires
        config.max_bans_per_minute > 0,
        events_in_order(events),
        0 <= i <= j < events.len(),
        events[j].1.now.instant() - events[i].1.now.instant() <= WINDOW_SECS * 1_000_000_000,
    ensures
        grants_between(series(config, events).1, i, j + 1) <= config.max_bans_per_minute,
{
    let part = events.take(j + 1);
    assert forall|x: int, y: int| 0 <= x <= y < part.len() implies (
    #[trigger] part[x]).1.now.instant() <= (#[trigger] part[y]).1.now.instant() by {
        assert(part[x] == events[x] && part[y] == events[y]);
    }
    assert(part.last() == events[j] && part[i] == events[i]);
    lemma_series_window(config, part, i);
    lemma_series_prefix(config, events, j + 1, i);
}

} // verus!
