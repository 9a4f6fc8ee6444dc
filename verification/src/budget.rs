//! The ceiling on the number of bans within a minute.

use crate::clock::Timestamp;
use vstd::prelude::*;

verus! {

/// Length of the window in which bans are counted, in seconds.
pub const WINDOW_SECS: u32 = 60;

/// Whether a ban at `stamp` no longer counts at `now`.
pub open spec fn is_expired(now: Timestamp, stamp: Timestamp) -> bool {
    now.instant() - stamp.instant() > WINDOW_SECS * 1_000_000_000
}

/// The bans from the first on that still counts at `now`.
pub open spec fn drop_expired(recent: Seq<Timestamp>, now: Timestamp) -> Seq<Timestamp>
    decreases recent.len(),
{
    if recent.len() > 0 && is_expired(now, recent[0]) {
        drop_expired(recent.drop_first(), now)
    } else {
        recent
    }
}

/// One request for a ban at `now`: the bans that are remembered after it, and whether it is
/// granted. With a ceiling of 0 every request is granted and none is remembered.
pub open spec fn budget_step(
    max_per_minute: int,
    recent: Seq<Timestamp>,
    now: Timestamp,
) -> (Seq<Timestamp>, bool) {
    if max_per_minute == 0 {
        (recent, true)
    } else {
        let kept = drop_expired(recent, now);
        if kept.len() >= max_per_minute {
            (kept, false)
        } else {
            (kept.push(now), true)
        }
    }
}

/// Requests at the given times, one after the other, to an engine that has banned nothing yet:
/// the bans that are remembered at the end, and for each request whether it is granted.
pub open spec fn budget_run(max_per_minute: int, times: Seq<Timestamp>) -> (
    Seq<Timestamp>,
    Seq<bool>,
)
    decreases times.len(),
{
    if times.len() == 0 {
        (seq![], seq![])
    } else {
        let (recent, granted) = budget_run(max_per_minute, times.drop_last());
        let (recent, grant) = budget_step(max_per_minute, recent, times.last());
        (recent, granted.push(grant))
    }
}

/// How many of the requests from `i` up to, but not including, `end` are granted.
pub open spec fn grants_between(granted: Seq<bool>, i: int, end: int) -> int
    decreases end - i,
{
    if i >= end {
        0
    } else {
        grants_between(granted, i, end - 1) + if granted[end - 1] {
            1int
        } else {
            0
        }
    }
}

/// Whether the clock never goes back.
pub open spec fn in_order(times: Seq<Timestamp>) -> bool {
    forall|i: int, j: int|
        0 <= i <= j < times.len() ==> (#[trigger] times[i]).instant() <= (
        #[trigger] times[j]).instant()
}

pub proof fn lemma_drop_expired(recent: Seq<Timestamp>, now: Timestamp) -> (d: int)
    ensures
        0 <= d <= recent.len(),
        drop_expired(recent, now) == recent.skip(d),
        forall|x: int| 0 <= x < d ==> is_expired(now, #[trigger] recent[x]),
        d < recent.len() ==> !is_expired(now, recent[d]),
    decreases recent.len(),
{
    if recent.len() > 0 && is_expired(now, recent[0]) {
        let e = lemma_drop_expired(recent.drop_first(), now);
        assert(recent.drop_first().skip(e) =~= recent.skip(e + 1));
        assert forall|x: int| 0 <= x < e + 1 implies is_expired(now, #[trigger] recent[x]) by {
            if x > 0 {
                assert(recent.drop_first()[x - 1] == recent[x]);
            }
        }
        e + 1
    } else {
        assert(recent.skip(0) =~= recent);
        0
    }
}

pub proof fn lemma_grants_prefix(granted: Seq<bool>, grant: bool, i: int, end: int)
    requires
        0 <= i,
        end <= granted.len(),
    ensures
        grants_between(granted.push(grant), i, end) == grants_between(granted, i, end),
    decreases end - i,
{
    if i < end {
        lemma_grants_prefix(granted, grant, i, end - 1);
    }
}

/// The bans granted since request `i` are the last ones remembered, as long as that request
/// lies within a window of the last.
proof fn lemma_window(max_per_minute: int, times: Seq<Timestamp>, i: int)
    requires
        max_per_minute > 0,
        in_order(times),
        0 <= i <= times.len(),
        i < times.len() ==> !is_expired(times.last(), times[i]),
    ensures
        ({
            let (recent, granted) = budget_run(max_per_minute, times);
            let c = grants_between(granted, i, times.len() as int);
            &&& granted.len() == times.len()
            &&& recent.len() <= max_per_minute
            &&& 0 <= c <= recent.len()
            &&& i < times.len() ==> forall|x: int|
                recent.len() - c <= x < recent.len() ==> (#[trigger] recent[x]).instant()
                    >= times[i].instant()
        }),
    decreases times.len(),
{
    if times.len() > 0 {
        let before = times.drop_last();
        let now = times.last();
        let (recent, granted) = budget_run(max_per_minute, before);
        let (after, grant) = budget_step(max_per_minute, recent, now);
        let n = before.len() as int;
        assert(in_order(before)) by {
            assert forall|x: int, y: int| 0 <= x <= y < before.len() implies (
            #[trigger] before[x]).instant() <= (#[trigger] before[y]).instant() by {
                assert(before[x] == times[x] && before[y] == times[y]);
            }
        }
        let k = if i < n {
            i
        } else {
            n
        };
        if i < n {
            assert(before[i] == times[i] && before[n - 1] == times[n - 1]);
            assert(times[n - 1].instant() <= times[n].instant());
        }
        lemma_window(max_per_minute, before, k);
        let c = grants_between(granted, k, n);
        let d = lemma_drop_expired(recent, now);
        let kept = recent.skip(d);
        if c > 0 {
            let x = recent.len() - c;
            assert(recent[x].instant() >= times[i].instant());
            assert(!is_expired(now, recent[x]));
            assert(d <= x);
        }
        assert(c <= kept.len());
        lemma_grants_prefix(granted, grant, i, n);
        if i < times.len() {
            assert(grants_between(granted, i, n) == c);
            assert(granted.push(grant)[n] == grant);
            let total = grants_between(granted.push(grant), i, n + 1);
            assert(total == c + if grant {
                1int
            } else {
                0
            });
            assert forall|x: int| after.len() - total <= x < after.len() implies (
            #[trigger] after[x]).instant() >= times[i].instant() by {
                if x < kept.len() {
                    assert(after[x] == recent[x + d]);
                    assert(c > 0);
                    assert(before[i] == times[i]);
                } else {
                    assert(after[x] == now);
                    assert(times[i].instant() <= times[n].instant());
                }
            }
        }
    }
}

/// The ceiling holds over every window: as long as the clock never goes back, no minute sees
/// more bans than the ceiling allows, wherever it begins.
pub proof fn law_ceiling_holds_in_every_window(
    max_per_minute: int,
    times: Seq<Timestamp>,
    i: int,
    j: int,
)
    requires
        max_per_minute > 0,
        in_order(times),
        0 <= i <= j < times.len(),
        times[j].instant() - times[i].instant() <= WINDOW_SECS * 1_000_000_000,
    ensures
        grants_between(budget_run(max_per_minute, times).1, i, j + 1) <= max_per_minute,
{
    let part = times.take(j + 1);
    assert forall|x: int, y: int| 0 <= x <= y < part.len() implies (
    #[trigger] part[x]).instant() <= (#[trigger] part[y]).instant() by {
        assert(part[x] == times[x] && part[y] == times[y]);
    }
    assert(part.last() == times[j] && part[i] == times[i]);
    lemma_window(max_per_minute, part, i);
    lemma_run_prefix(max_per_minute, times, j + 1, i);
}

proof fn lemma_run_prefix(max_per_minute: int, times: Seq<Timestamp>, end: int, i: int)
    requires
        0 <= i <= end <= times.len(),
    ensures
        budget_run(max_per_minute, times).1.len() == times.len(),
        grants_between(budget_run(max_per_minute, times.take(end)).1, i, end) == grants_between(
            budget_run(max_per_minute, times).1,
            i,
            end,
        ),
    decreases times.len(),
{
    if end == times.len() {
        assert(times.take(end) =~= times);
        if end > 0 {
            lemma_run_prefix(max_per_minute, times.drop_last(), 0, 0);
        }
    } else {
        let before = times.drop_last();
        lemma_run_prefix(max_per_minute, before, end, i);
        assert(before.take(end) =~= times.take(end));
        let (recent, granted) = budget_run(max_per_minute, before);
        let (_, grant) = budget_step(max_per_minute, recent, times.last());
        lemma_grants_prefix(granted, grant, i, end);
    }
}

/// The window slides: once every remembered ban lies more than a minute back, the next request
/// is granted.
pub proof fn law_budget_comes_back(max_per_minute: int, recent: Seq<Timestamp>, now: Timestamp)
    requires
        max_per_minute >= 0,
        forall|x: int| 0 <= x < recent.len() ==> is_expired(now, #[trigger] recent[x]),
    ensures
        budget_step(max_per_minute, recent, now).1,
{
    let d = lemma_drop_expired(recent, now);
}

/// With a ceiling of 0 there is none: every request is granted.
pub proof fn law_no_ceiling_grants_all(times: Seq<Timestamp>, i: int)
    requires
        0 <= i < times.len(),
    ensures
        budget_run(0, times).1.len() == times.len(),
        budget_run(0, times).1[i],
    decreases times.len(),
{
    if i == times.len() - 1 {
        if i > 0 {
            law_no_ceiling_grants_all(times.drop_last(), 0);
        }
    } else {
        law_no_ceiling_grants_all(times.drop_last(), i);
    }
}

/// How many of the first `end` requests were granted and still count at `now`.
pub open spec fn counting_grants(
    times: Seq<Timestamp>,
    granted: Seq<bool>,
    now: Timestamp,
    end: int,
) -> int
    decreases end,
{
    if end <= 0 {
        0
    } else {
        counting_grants(times, granted, now, end - 1) + if granted[end - 1] && !is_expired(
            now,
            times[end - 1],
        ) {
            1int
        } else {
            0
        }
    }
}

/// What no longer counts at one time does not count later.
proof fn lemma_drop_twice(recent: Seq<Timestamp>, at: Timestamp, later: Timestamp)
    requires
        at.instant() <= later.instant(),
    ensures
        drop_expired(drop_expired(recent, at), later) == drop_expired(recent, later),
    decreases recent.len(),
{
    if recent.len() > 0 && is_expired(at, recent[0]) {
        lemma_drop_twice(recent.drop_first(), at, later);
    }
}

proof fn lemma_drop_keeps_last(recent: Seq<Timestamp>, last: Timestamp, now: Timestamp)
    requires
        !is_expired(now, last),
    ensures
        drop_expired(recent.push(last), now) == drop_expired(recent, now).push(last),
    decreases recent.len(),
{
    if recent.len() > 0 {
        assert(recent.push(last).drop_first() =~= recent.drop_first().push(last));
        lemma_drop_keeps_last(recent.drop_first(), last, now);
    }
}

proof fn lemma_counting_prefix(
    times: Seq<Timestamp>,
    granted: Seq<bool>,
    more_times: Seq<Timestamp>,
    more_granted: Seq<bool>,
    now: Timestamp,
    end: int,
)
    requires
        forall|k: int| 0 <= k < end ==> #[trigger] times[k] == more_times[k],
        forall|k: int| 0 <= k < end ==> #[trigger] granted[k] == more_granted[k],
    ensures
        counting_grants(times, granted, now, end) == counting_grants(
            more_times,
            more_granted,
            now,
            end,
        ),
    decreases end,
{
    if end > 0 {
        lemma_counting_prefix(times, granted, more_times, more_granted, now, end - 1);
        assert(times[end - 1] == more_times[end - 1]);
        assert(granted[end - 1] == more_granted[end - 1]);
    }
}

proof fn lemma_nothing_counts(
    times: Seq<Timestamp>,
    granted: Seq<bool>,
    now: Timestamp,
    end: int,
)
    requires
        forall|k: int| 0 <= k < end ==> is_expired(now, #[trigger] times[k]),
    ensures
        counting_grants(times, granted, now, end) == 0,
    decreases end,
{
    if end > 0 {
        lemma_nothing_counts(times, granted, now, end - 1);
        assert(is_expired(now, times[end - 1]));
    }
}

/// What is remembered and still counts at a later time are the grants that still count then.
proof fn lemma_remembered_grants(max_per_minute: int, times: Seq<Timestamp>, now: Timestamp)
    requires
        max_per_minute > 0,
        in_order(times),
        times.len() > 0 ==> times.last().instant() <= now.instant(),
    ensures
        ({
            let (recent, granted) = budget_run(max_per_minute, times);
            &&& granted.len() == times.len()
            &&& drop_expired(recent, now).len() == counting_grants(
                times,
                granted,
                now,
                times.len() as int,
            )
            &&& forall|x: int|
                0 <= x < recent.len() ==> (#[trigger] recent[x]).instant()
                    <= times.last().instant()
        }),
    decreases times.len(),
{
    if times.len() > 0 {
        let before = times.drop_last();
        let last = times.last();
        let n = before.len() as int;
        let (recent, granted) = budget_run(max_per_minute, before);
        let (after, grant) = budget_step(max_per_minute, recent, last);
        assert(in_order(before)) by {
            assert forall|x: int, y: int| 0 <= x <= y < before.len() implies (
            #[trigger] before[x]).instant() <= (#[trigger] before[y]).instant() by {
                assert(before[x] == times[x] && before[y] == times[y]);
            }
        }
        if n > 0 {
            assert(times[n - 1].instant() <= times[n].instant());
        }
        lemma_remembered_grants(max_per_minute, before, now);
        let kept = drop_expired(recent, last);
        let d = lemma_drop_expired(recent, last);
        lemma_drop_twice(recent, last, now);
        lemma_counting_prefix(before, granted, times, granted.push(grant), now, n);
        assert forall|x: int| 0 <= x < after.len() implies (#[trigger] after[x]).instant()
            <= last.instant() by {
            if x < kept.len() {
                assert(after[x] == recent[x + d]);
            }
        }
        if !is_expired(now, last) {
            lemma_drop_keeps_last(kept, last, now);
        } else {
            let e = lemma_drop_expired(after, now);
            if e < after.len() {
                assert(after[e].instant() <= last.instant());
            }
            assert forall|k: int| 0 <= k < n + 1 implies is_expired(now, #[trigger] times[k]) by {
                assert(times[k].instant() <= times[n].instant());
            }
            lemma_nothing_counts(times, granted.push(grant), now, n + 1);
        }
    }
}

/// A request is granted exactly where there is no ceiling, or where fewer requests than it allows
/// were granted within the last minute, as long as the clock never goes back.
pub proof fn law_granted_exactly_below_the_ceiling(
    max_per_minute: int,
    times: Seq<Timestamp>,
    j: int,
)
    requires
        max_per_minute >= 0,
        in_order(times),
        0 <= j < times.len(),
    ensures
        ({
            let granted = budget_run(max_per_minute, times).1;
            granted[j] <==> max_per_minute == 0 || counting_grants(times, granted, times[j], j)
                < max_per_minute
        }),
    decreases times.len(),
{
    let before = times.drop_last();
    let (recent, granted) = budget_run(max_per_minute, before);
    let (_, grant) = budget_step(max_per_minute, recent, times.last());
    lemma_run_prefix(max_per_minute, before, 0, 0);
    if max_per_minute == 0 {
        law_no_ceiling_grants_all(times, j);
    } else {
        assert(in_order(before)) by {
            assert forall|x: int, y: int| 0 <= x <= y < before.len() implies (
            #[trigger] before[x]).instant() <= (#[trigger] before[y]).instant() by {
                assert(before[x] == times[x] && before[y] == times[y]);
            }
        }
        lemma_counting_prefix(before, granted, times, granted.push(grant), times[j], j);
        if j < times.len() - 1 {
            law_granted_exactly_below_the_ceiling(max_per_minute, before, j);
            assert(before[j] == times[j]);
        } else {
            if j > 0 {
                assert(times[j - 1].instant() <= times[j].instant());
            }
            lemma_remembered_grants(max_per_minute, before, times[j]);
        }
    }
}

} // verus!
