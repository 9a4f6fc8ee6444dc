//! Points in time, with the arithmetic and the text form that `chrono` gives them.

use chrono::{DateTime, TimeDelta, Utc};
use vstd::prelude::*;

verus! {

/// The first second that `chrono::DateTime<Utc>` represents.
pub const MIN_SECS: i64 = -8_334_601_228_800;

/// The last second that `chrono::DateTime<Utc>` represents.
pub const MAX_SECS: i64 = 8_210_266_876_799;

/// A point in time: whole seconds since the start of 1970 in UTC, and the nanoseconds past the
/// last of them. Leap seconds have no point of their own; the system clock gives none.
#[derive(Debug, Clone, Copy, PartialEq, Eq, Structural)]
pub struct Timestamp {
    pub secs: i64,
    pub nanos: u32,
}

/// Whether a second lies in the range that `chrono::DateTime<Utc>` represents.
pub open spec fn secs_in_range(secs: int) -> bool {
    MIN_SECS <= secs <= MAX_SECS
}

/// The text that `chrono::DateTime<Utc>::to_rfc3339` gives for a point in time.
pub uninterp spec fn rfc3339_text(secs: i64, nanos: u32) -> Seq<char>;

/// What a number of seconds that is stored unsigned means where a signed one is read: the same
/// 64 bits in two's complement.
pub open spec fn as_signed(seconds: u64) -> int {
    if seconds <= i64::MAX {
        seconds as int
    } else {
        seconds - 0x1_0000_0000_0000_0000
    }
}

/// The same 64 bits, read as a signed number.
pub fn to_signed(seconds: u64) -> (r: i64)
    ensures
        r == as_signed(seconds),
{
    proof {
        assert(seconds <= 0x7fff_ffff_ffff_ffff ==> seconds as i64 == seconds) by (bit_vector);
        assert(seconds > 0x7fff_ffff_ffff_ffff ==> seconds as i64 == seconds
            - 0x1_0000_0000_0000_0000) by (bit_vector);
    }
    #[verifier::truncate]
    (seconds as i64)
}

impl Timestamp {
    /// Whether `chrono::DateTime<Utc>` represents the point, outside of leap seconds.
    pub open spec fn valid(self) -> bool {
        secs_in_range(self.secs as int) && self.nanos < 1_000_000_000
    }

    /// Nanoseconds since the start of 1970.
    pub open spec fn instant(self) -> int {
        self.secs * 1_000_000_000 + self.nanos
    }

    /// The point with the given parts, where they are valid.
    pub fn new(secs: i64, nanos: u32) -> (r: Option<Timestamp>)
        ensures
            match r {
                Some(t) => t == (Timestamp { secs, nanos }) && t.valid(),
                None => !(Timestamp { secs, nanos }).valid(),
            },
    {
        if MIN_SECS <= secs && secs <= MAX_SECS && nanos < 1_000_000_000 {
            Some(Timestamp { secs, nanos })
        } else {
            None
        }
    }

    /// The point that many seconds later, where there is one.
    pub fn plus(self, seconds: i64) -> (r: Option<Timestamp>)
        requires
            self.valid(),
        ensures
            match r {
                Some(t) => t.valid() && t.secs == self.secs + seconds && t.nanos == self.nanos,
                None => !secs_in_range(self.secs + seconds),
            },
    {
        let sum: i128 = self.secs as i128 + seconds as i128;
        if MIN_SECS as i128 <= sum && sum <= MAX_SECS as i128 {
            Some(add_seconds(self, seconds))
        } else {
            None
        }
    }

    /// The point that many seconds earlier, where there is one.
    pub fn minus(self, seconds: i64) -> (r: Option<Timestamp>)
        requires
            self.valid(),
        ensures
            match r {
                Some(t) => t.valid() && t.secs == self.secs - seconds && t.nanos == self.nanos,
                None => !secs_in_range(self.secs - seconds),
            },
    {
        let difference: i128 = self.secs as i128 - seconds as i128;
        if MIN_SECS as i128 <= difference && difference <= MAX_SECS as i128 {
            Some(sub_seconds(self, seconds))
        } else {
            None
        }
    }

    /// Whether `earlier` lies more than `seconds` seconds before this point.
    pub fn is_past(self, earlier: Timestamp, seconds: u32) -> (r: bool)
        requires
            self.valid(),
            earlier.valid(),
        ensures
            r == (self.instant() - earlier.instant() > seconds * 1_000_000_000),
    {
        let (whole, part) = difference(self, earlier);
        whole > seconds as i64 || (whole == seconds as i64 && part > 0)
    }
}

/// `chrono::Utc::now`: reads the system clock, which stands at or after the start of 1970 and
/// gives no leap second. Which point it gives is up to the machine. The call panics where the
/// clock stands before 1970 or past the last point that `chrono` represents.
#[verifier::external_body]
pub(crate) fn utc_now() -> (r: Timestamp)
    ensures
        r.valid(),
        r.secs >= 0,
{
    let now = Utc::now();
    Timestamp { secs: now.timestamp(), nanos: now.timestamp_subsec_nanos() }
}

/// `chrono::DateTime<Utc>::to_rfc3339`: the text depends on the point in time alone. What it
/// spells is the calendar's business and is left to the name.
#[verifier::external_body]
pub(crate) fn to_rfc3339(at: Timestamp) -> (r: String)
    requires
        at.valid(),
    ensures
        r@ == rfc3339_text(at.secs, at.nanos),
{
    DateTime::<Utc>::from_timestamp(at.secs, at.nanos).unwrap().to_rfc3339()
}

/// `chrono::DateTime<Utc> + chrono::TimeDelta`, the latter a number of whole seconds: moves the
/// seconds on and keeps the nanoseconds. Out of range the sum panics.
#[verifier::external_body]
fn add_seconds(at: Timestamp, seconds: i64) -> (r: Timestamp)
    requires
        at.valid(),
        secs_in_range(at.secs + seconds),
    ensures
        r.secs == at.secs + seconds,
        r.nanos == at.nanos,
{
    let start = DateTime::<Utc>::from_timestamp(at.secs, at.nanos).unwrap();
    let sum = start + TimeDelta::seconds(seconds);
    Timestamp { secs: sum.timestamp(), nanos: sum.timestamp_subsec_nanos() }
}

/// `chrono::DateTime<Utc> - chrono::TimeDelta`, the latter a number of whole seconds: moves the
/// seconds back and keeps the nanoseconds. Out of range the difference panics.
#[verifier::external_body]
fn sub_seconds(at: Timestamp, seconds: i64) -> (r: Timestamp)
    requires
        at.valid(),
        secs_in_range(at.secs - seconds),
    ensures
        r.secs == at.secs - seconds,
        r.nanos == at.nanos,
{
    let start = DateTime::<Utc>::from_timestamp(at.secs, at.nanos).unwrap();
    let earlier = start - TimeDelta::seconds(seconds);
    Timestamp { secs: earlier.timestamp(), nanos: earlier.timestamp_subsec_nanos() }
}

/// `chrono::DateTime<Utc> - chrono::DateTime<Utc>`: the exact span between the two points, read
/// as whole seconds and the nanoseconds past them, both of the sign of the span.
#[verifier::external_body]
fn difference(later: Timestamp, earlier: Timestamp) -> (r: (i64, i32))
    requires
        later.valid(),
        earlier.valid(),
    ensures
        r.0 * 1_000_000_000 + r.1 == later.instant() - earlier.instant(),
        -1_000_000_000 < r.1 < 1_000_000_000,
        r.0 > 0 ==> r.1 >= 0,
        r.0 < 0 ==> r.1 <= 0,
{
    let span = DateTime::<Utc>::from_timestamp(later.secs, later.nanos).unwrap()
        - DateTime::<Utc>::from_timestamp(earlier.secs, earlier.nanos).unwrap();
    (span.num_seconds(), span.subsec_nanos())
}

} // verus!
