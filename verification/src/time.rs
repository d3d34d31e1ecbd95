//! Instants in Universal Time.

use crate::order;
use crate::order::{rank_numbers, Rank};
use vstd::prelude::*;

verus! {

/// An instant: seconds since the start of 1970, and nanoseconds past the
/// second. Within a leap second `nanos` runs on past a billion.
#[derive(Clone, Copy, Debug, PartialEq, Eq, Structural)]
pub struct Timestamp {
    pub secs: i64,
    pub nanos: u32,
}

/// The last second of the calendar, at the end of the year 262142.
pub const LAST_SECOND: i64 = 8_210_266_876_799;

/// The first second of the calendar, at the start of the year -262143.
pub const FIRST_SECOND: i64 = -8_334_601_228_800;

/// Seconds in a day.
pub const DAY: i64 = 86_400;

/// How one instant stands to another.
pub open spec fn time_rank(a: Timestamp, b: Timestamp) -> Rank {
    order::refined(
        order::number_rank(a.secs as int, b.secs as int),
        order::number_rank(a.nanos as int, b.nanos as int),
    )
}

pub proof fn time_rank_facts(a: Timestamp, b: Timestamp, c: Timestamp)
    ensures
        time_rank(a, b) is Same <==> a == b,
        time_rank(b, a) == order::turned(time_rank(a, b)),
        order::consistent(time_rank(a, b), time_rank(b, c), time_rank(a, c)),
{
}

/// Whole milliseconds since the start of 1970.
pub open spec fn millis(t: Timestamp) -> int {
    t.secs * 1000 + t.nanos / 1_000_000
}

impl Timestamp {
    /// Whole milliseconds since the start of 1970.
    pub fn timestamp_millis(&self) -> (r: i128)
        ensures
            r == millis(*self),
    {
        (self.secs as i128) * 1000 + (self.nanos / 1_000_000) as i128
    }

    /// How this instant stands to `other`.
    pub fn rank(&self, other: &Timestamp) -> (r: Rank)
        ensures
            r == time_rank(*self, *other),
    {
        rank_numbers(self.secs, other.secs).refine(
            rank_numbers(self.nanos as i64, other.nanos as i64),
        )
    }
}

/// `chrono::Utc::now`: the instant at which it is called. Nothing is promised
/// of it: it depends on the machine's clock.
#[verifier::external_body]
pub(crate) fn now() -> Timestamp {
    let t = chrono::Utc::now();
    Timestamp { secs: t.timestamp(), nanos: t.timestamp_subsec_nanos() }
}

/// The instant that lies `millis` milliseconds after the start of 1970.
pub open spec fn instant_at(millis: int) -> Timestamp {
    Timestamp { secs: (millis / 1000) as i64, nanos: ((millis % 1000) * 1_000_000) as u32 }
}

/// Whether the calendar, which runs from the year -262143 to the year 262142,
/// holds the instant.
pub open spec fn in_calendar(millis: int) -> bool {
    FIRST_SECOND * 1000 <= millis <= LAST_SECOND * 1000 + 999
}

/// `chrono::DateTime::from_timestamp_millis`: the instant that lies `millis`
/// milliseconds after the start of 1970, where the calendar holds it.
#[verifier::external_body]
pub(crate) fn instant_of_millis(millis: i64) -> (r: Option<Timestamp>)
    ensures
        r == (if in_calendar(millis as int) {
            Some(instant_at(millis as int))
        } else {
            None
        }),
{
    chrono::DateTime::<chrono::Utc>::from_timestamp_millis(millis).map(
        |t| Timestamp { secs: t.timestamp(), nanos: t.timestamp_subsec_nanos() },
    )
}

/// An instant of the calendar keeps its milliseconds, before the start of 1970
/// too.
pub proof fn instants_keep_their_milliseconds(ms: int)
    requires
        in_calendar(ms),
    ensures
        millis(instant_at(ms)) == ms,
        0 <= instant_at(ms).nanos < 1_000_000_000,
{
    let s = ms / 1000;
    let r = ms % 1000;
    assert(i64::MIN <= s <= i64::MAX);
    assert(0 <= r * 1_000_000 < 1_000_000_000);
    assert((r * 1_000_000) / 1_000_000 == r);
}

} // verus!
