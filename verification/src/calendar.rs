//! Calendar-day arithmetic: the local day's boundaries and day counts
//! between instants.
//!
//! The store compares instants in UTC, while "today" is a day of the
//! machine's local calendar.  The engine models the local timezone as a
//! fixed UTC offset sampled once per logical operation, so one boundary
//! computation is reused by every predicate of that operation and the
//! boundary cannot skew between them.

use vstd::arithmetic::div_mod::lemma_fundamental_div_mod;
use vstd::prelude::*;

use crate::{MAX_INSTANT, SECS_PER_DAY};

verus! {

/// The whole-day number containing instant `ts`: days since the Unix
/// epoch, rounded toward minus infinity.
pub open spec fn spec_day_number(ts: int) -> int {
    ts / (SECS_PER_DAY as int)
}

/// First instant of the local calendar day containing `now`, expressed in
/// UTC, for a local timezone `offset` seconds east of UTC.
pub open spec fn spec_day_start(now: int, offset: int) -> int {
    spec_day_number(now + offset) * (SECS_PER_DAY as int) - offset
}

/// Whole days elapsed between a card's last review and `now`; zero for a
/// card never reviewed, and zero when `now` precedes the recorded review.
pub open spec fn spec_elapsed_days(now: int, last_review: Option<i64>) -> int {
    match last_review {
        Option::Some(t) => if now >= t {
            (now - t) / (SECS_PER_DAY as int)
        } else {
            0
        },
        Option::None => 0,
    }
}

/// A card is classified as new exactly when it was never reviewed, so the
/// days elapsed that feed the oracle's projection are zero for it.
pub proof fn lemma_unreviewed_elapsed_zero(now: int)
    ensures
        spec_elapsed_days(now, Option::<i64>::None) == 0,
{
}

/// The local calendar day's first and last instant, in UTC.
#[derive(Debug, Clone, Copy, PartialEq, Eq, Structural)]
pub struct DayBoundary {
    pub start: i64,
    pub end: i64,
}

impl DayBoundary {
    /// The boundary invariant: the day closes on its last whole second.
    pub open spec fn wf(self) -> bool {
        self.end == self.start + SECS_PER_DAY - 1
    }

    /// Whether instant `ts` falls within the day.
    pub open spec fn contains(self, ts: int) -> bool {
        self.start <= ts <= self.end
    }
}

/// The whole-day number containing a nonnegative instant.
pub fn day_of_timestamp(ts: i64) -> (day: i64)
    requires
        0 <= ts,
    ensures
        day == spec_day_number(ts as int),
{
    ((ts as u64) / (SECS_PER_DAY as u64)) as i64
}

/// The local calendar day of `now` as `[start, end]` instants in UTC,
/// given the local timezone's offset in seconds east of UTC.
pub fn today_boundary(now: i64, offset_seconds: i32) -> (b: DayBoundary)
    requires
        0 <= now <= MAX_INSTANT,
        -SECS_PER_DAY < offset_seconds < SECS_PER_DAY,
    ensures
        b.wf(),
        b.start == spec_day_start(now as int, offset_seconds as int),
        b.contains(now as int),
{
    let offset = offset_seconds as i64;
    let local = now + offset;
    let day: i64 = if local >= 0 {
        ((local as u64) / (SECS_PER_DAY as u64)) as i64
    } else {
        proof {
            lemma_fundamental_div_mod(local as int, SECS_PER_DAY as int);
        }
        -1
    };
    proof {
        lemma_fundamental_div_mod(local as int, SECS_PER_DAY as int);
    }
    let start = day * SECS_PER_DAY - offset;
    DayBoundary { start, end: start + (SECS_PER_DAY - 1) }
}

/// Whole days elapsed between a card's last review (if any) and `now`.
pub fn elapsed_days(now: i64, last_review: Option<i64>) -> (days: u32)
    requires
        0 <= now <= MAX_INSTANT,
        last_review matches Some(t) ==> 0 <= t <= MAX_INSTANT,
    ensures
        days == spec_elapsed_days(now as int, last_review),
{
    match last_review {
        Option::Some(t) => {
            if now >= t {
                (((now - t) as u64) / (SECS_PER_DAY as u64)) as u32
            } else {
                0
            }
        },
        Option::None => 0,
    }
}

/// Relies on `chrono::Local` (through `TimeZone::timestamp_opt`) for the
/// UTC offset of the machine's local timezone at the given instant.  The
/// offset depends on the environment, so nothing is assumed of it beyond
/// the range `chrono::FixedOffset` guarantees by construction; if the
/// platform gives no answer for the instant, the offset of UTC itself is
/// reported.
#[verifier::external_body]
pub fn local_offset_seconds(now: i64) -> (offset: i32)
    ensures
        -SECS_PER_DAY < offset < SECS_PER_DAY,
{
    match chrono::TimeZone::timestamp_opt(&chrono::Local, now, 0) {
        chrono::LocalResult::Single(dt) => dt.offset().local_minus_utc(),
        _ => 0,
    }
}

} // verus!
