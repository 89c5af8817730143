//! Readings of the wall clock and of the monotonic clock.

use vstd::prelude::*;
use crate::outcome::Timestamp;
use std::time::Instant;

verus! {

/// A reading of the monotonic clock; nothing is known of what it holds.
#[verifier::external_type_specification]
#[verifier::external_body]
pub struct ExInstant(std::time::Instant);

/// `Instant::now` reads the monotonic clock. Nothing is claimed of the
/// reading.
pub assume_specification[ Instant::now ]() -> (now: Instant);

/// `Instant::elapsed` gives the time that has passed since the reading was
/// taken. Nothing is claimed of its length.
pub assume_specification[ Instant::elapsed ](start: &Instant) -> (elapsed: std::time::Duration);

/// `Duration::as_millis` gives the whole milliseconds in a duration.
/// Nothing is claimed of the number.
pub assume_specification[ std::time::Duration::as_millis ](duration: &std::time::Duration) -> (millis: u128);

/// The current time in UTC, from `chrono::Utc::now`, taken apart with
/// `DateTime::timestamp` and `DateTime::timestamp_subsec_nanos`. Nothing is
/// claimed of the reading. `Utc::now` does not return when the system
/// clock is set before the Unix epoch.
#[verifier::external_body]
pub(crate) fn now_utc() -> (now: Timestamp) {
    let now = chrono::Utc::now();
    Timestamp { secs: now.timestamp(), nanos: now.timestamp_subsec_nanos() }
}

} // verus!
