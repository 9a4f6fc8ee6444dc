//! What points in time and the ceiling on bans come to, in seconds and nanoseconds.

use crate::budget::{budget_step, is_expired, lemma_drop_expired};
use crate::clock::{as_signed, secs_in_range, to_signed, Timestamp};
use vstd::prelude::*;

verus! {

/// A point in time is valid within the years that a date can have, from the first second of the
/// year -262143 to the last of the year 262142, with less than a second of nanoseconds.
pub proof fn law_valid_points_in_time(at: Timestamp)
    ensures
        at.valid() <==> -8_334_601_228_800 <= at.secs <= 8_210_266_876_799 && at.nanos
            < 1_000_000_000,
        secs_in_range(at.secs as int) <==> -8_334_601_228_800 <= at.secs <= 8_210_266_876_799,
{
}

/// Of two valid points in time the one with the later second is the later one, and within a second
/// the one with more nanoseconds. Two points a second apart lie a thousand million nanoseconds
/// apart.
pub proof fn law_points_in_time_are_ordered(a: Timestamp, b: Timestamp)
    requires
        a.valid(),
        b.valid(),
    ensures
        a.instant() < b.instant() <==> a.secs < b.secs || a.secs == b.secs && a.nanos < b.nanos,
        a.instant() == b.instant() <==> a == b,
        a.nanos == b.nanos && b.secs == a.secs + 1 ==> b.instant() - a.instant() == 1_000_000_000,
        a.secs == b.secs ==> b.instant() - a.instant() == b.nanos - a.nanos,
{
}

/// A number of seconds past the largest signed number reads as the negative number with the same
/// 64 bits; any other reads as itself.
pub proof fn law_seconds_are_read_with_their_sign(seconds: u64, read: i64)
    requires
        call_ensures(to_signed, (seconds,), read),
    ensures
        read == as_signed(seconds),
        seconds < 0x8000_0000_0000_0000 ==> read == seconds,
        seconds >= 0x8000_0000_0000_0000 ==> read == seconds - 0x1_0000_0000_0000_0000,
{
}

/// Moving a point in time moves it by that many seconds, and gives nothing exactly where that
/// leaves the years that a date can have.
pub proof fn law_points_in_time_are_moved(
    at: Timestamp,
    seconds: i64,
    later: Option<Timestamp>,
    earlier: Option<Timestamp>,
)
    requires
        at.valid(),
        call_ensures(Timestamp::plus, (at, seconds), later),
        call_ensures(Timestamp::minus, (at, seconds), earlier),
    ensures
        later is Some <==> -8_334_601_228_800 <= at.secs + seconds <= 8_210_266_876_799,
        later matches Some(t) ==> t.secs == at.secs + seconds && t.nanos == at.nanos,
        earlier is Some <==> -8_334_601_228_800 <= at.secs - seconds <= 8_210_266_876_799,
        earlier matches Some(t) ==> t.secs == at.secs - seconds && t.nanos == at.nanos,
{
}

/// A ban no longer counts once it lies more than 60 seconds back.
pub proof fn law_bans_count_for_a_minute(now: Timestamp, stamp: Timestamp)
    requires
        now.valid(),
        stamp.valid(),
    ensures
        is_expired(now, stamp) <==> now.secs - stamp.secs > 60 || now.secs - stamp.secs == 60
            && now.nanos > stamp.nanos,
{
}

/// Whether a ban lies more than 60 seconds back.
pub open spec fn is_over_a_minute_old(now: Timestamp, stamp: Timestamp) -> bool {
    (now.secs - stamp.secs) * 1_000_000_000 + (now.nanos - stamp.nanos) > 60_000_000_000
}

/// One request for a ban: the oldest bans are forgotten as long as they lie more than a minute
/// back, and the request is granted exactly where fewer are left than the ceiling allows. It is
/// then remembered as the latest.
pub proof fn law_one_request_for_a_ban(
    max_per_minute: int,
    recent: Seq<Timestamp>,
    now: Timestamp,
) -> (forgotten: int)
    requires
        max_per_minute > 0,
    ensures
        0 <= forgotten <= recent.len(),
        forall|x: int| 0 <= x < forgotten ==> is_over_a_minute_old(now, #[trigger] recent[x]),
        forgotten < recent.len() ==> !is_over_a_minute_old(now, recent[forgotten]),
        ({
            let (after, granted) = budget_step(max_per_minute, recent, now);
            let left = recent.skip(forgotten);
            &&& granted <==> recent.len() - forgotten < max_per_minute
            &&& granted ==> after == left.push(now)
            &&& !granted ==> after == left
        }),
{
    let d = lemma_drop_expired(recent, now);
    assert forall|x: int| 0 <= x < d implies is_over_a_minute_old(now, #[trigger] recent[x]) by {
        assert(is_expired(now, recent[x]));
    }
    d
}

/// With a ceiling of 0 a request is granted and nothing is remembered or forgotten.
pub proof fn law_one_request_without_a_ceiling(recent: Seq<Timestamp>, now: Timestamp)
    ensures
        budget_step(0, recent, now) == (recent, true),
{
}

} // verus!
