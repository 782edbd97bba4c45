//! The core's only contact with real time: a monotonic instant for the
//! countdown, and the local calendar date as a day number for the analytics.
//!
//! Calendar dates are handled as day numbers in the proleptic Gregorian
//! calendar, with January 1 of year 1 as day 1 (which was a Monday). All
//! date arithmetic in the library works on these plain numbers; only the
//! items here touch the system clock.

use vstd::prelude::*;
use chrono::Datelike;

verus! {

#[verifier::external_type_specification]
#[verifier::external_body]
pub struct ExInstant(std::time::Instant);

/// Relies on std's `Instant::now`: a reading of the monotonic clock. Nothing
/// is assumed about the value read.
pub assume_specification[ std::time::Instant::now ]() -> std::time::Instant;

/// Relies on std's `Instant::saturating_duration_since`: the time from
/// `earlier` to `later`, zero if `earlier` is in fact the later reading.
/// Nothing is assumed about the span measured.
pub assume_specification[ std::time::Instant::saturating_duration_since ](
    later: &std::time::Instant,
    earlier: std::time::Instant,
) -> std::time::Duration;

/// Relies on std's `Duration::as_millis`: the span in whole milliseconds.
/// Nothing is assumed about the value.
pub assume_specification[ std::time::Duration::as_millis ](
    d: &std::time::Duration,
) -> u128;

/// Relies on chrono's `Local::now`, read off through `date_naive` and
/// `Datelike::num_days_from_ce` as the local calendar date's day number
/// (January 1 of year 1 is day 1). The value depends on the system clock,
/// so nothing is assumed about it.
#[verifier::external_body]
fn now_days_from_ce() -> i32 {
    chrono::Local::now().date_naive().num_days_from_ce()
}

/// The local calendar date, as a day number with January 1 of year 1 as
/// day 1. Dates before that day are clamped to day 1, so the result is
/// always a usable day number.
pub fn today_day_number() -> (d: u64)
    ensures
        1 <= d,
{
    let raw = now_days_from_ce();
    if raw < 1 {
        1
    } else {
        raw as u64
    }
}

/// A reading of the monotonic clock, used only as a reference point for
/// measuring elapsed time.
#[derive(Debug, Clone, Copy)]
pub struct MonotonicStamp {
    instant: std::time::Instant,
}

impl MonotonicStamp {
    /// The monotonic clock as of now.
    pub fn now() -> MonotonicStamp {
        MonotonicStamp { instant: std::time::Instant::now() }
    }

    /// Milliseconds from this reading to `later`, zero when the readings
    /// are out of order and saturated at `u64::MAX`.
    pub fn millis_to(&self, later: &MonotonicStamp) -> u64 {
        let span = later.instant.saturating_duration_since(self.instant);
        let ms = span.as_millis();
        if ms > u64::MAX as u128 {
            u64::MAX
        } else {
            ms as u64
        }
    }
}

} // verus!
