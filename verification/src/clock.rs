//! The time of day.
use std::time::{Duration, SystemTime, SystemTimeError};

use vstd::prelude::*;

verus! {

/// A point in time of the system clock.
#[verifier::external_type_specification]
#[verifier::external_body]
pub struct ExSystemTime(SystemTime);

/// The error for a point in time that lies before another.
#[verifier::external_type_specification]
#[verifier::external_body]
pub struct ExSystemTimeError(SystemTimeError);

/// The nanoseconds of a span of time.
pub uninterp spec fn span_nanos(d: Duration) -> nat;

/// What `SystemTime::duration_since` gives for a point in time and the Unix
/// epoch: the nanoseconds between them, or `None` where it gives an error.
pub uninterp spec fn epoch_nanos(t: SystemTime) -> Option<nat>;

/// The nanoseconds of the time since the Unix epoch, where it is known.
pub open spec fn nanos_of(time: Result<Duration, SystemTimeError>) -> Option<nat> {
    match time {
        Ok(d) => Some(span_nanos(d)),
        Err(_) => None,
    }
}

/// The whole seconds from the Unix epoch to a point in time; 0 for one whose
/// distance is an error.
pub open spec fn seconds_at(t: SystemTime) -> nat {
    match epoch_nanos(t) {
        Some(n) => n / 1_000_000_000,
        None => 0,
    }
}

/// The whole milliseconds from the Unix epoch to a point in time; 0 for one
/// whose distance is an error.
pub open spec fn millis_at(t: SystemTime) -> nat {
    match epoch_nanos(t) {
        Some(n) => n / 1_000_000,
        None => 0,
    }
}

/// `SystemTime::now`: the reading of the system clock. Nothing is stated of it.
pub assume_specification[ SystemTime::now ]() -> (r: SystemTime)
;

/// `Duration::as_secs`: the whole seconds of a span.
pub assume_specification[ Duration::as_secs ](d: &Duration) -> (r: u64)
    ensures
        r == span_nanos(*d) / 1_000_000_000,
;

/// `Duration::as_millis`: the whole milliseconds of a span.
pub assume_specification[ Duration::as_millis ](d: &Duration) -> (r: u128)
    ensures
        r == span_nanos(*d) / 1_000_000,
;

/// `SystemTime::duration_since` with the Unix epoch: the span, and whether it is
/// an error, depend on the point in time alone. It is an error for one before
/// the epoch, which is not stated.
#[verifier::external_body]
fn since_epoch(t: SystemTime) -> (r: Result<Duration, SystemTimeError>)
    ensures
        nanos_of(r) == epoch_nanos(t),
{
    t.duration_since(std::time::UNIX_EPOCH)
}

/// The whole seconds of the time since the Unix epoch; 0 if the clock is set
/// before it.
pub fn seconds_of(time: &Result<Duration, SystemTimeError>) -> (r: u64)
    ensures
        match time {
            Ok(d) => r == span_nanos(*d) / 1_000_000_000,
            Err(_) => r == 0,
        },
{
    match time {
        Ok(d) => d.as_secs(),
        Err(_) => 0,
    }
}

/// The whole milliseconds of the time since the Unix epoch; 0 if the clock is
/// set before it.
pub fn millis_of(time: &Result<Duration, SystemTimeError>) -> (r: u128)
    ensures
        match time {
            Ok(d) => r == span_nanos(*d) / 1_000_000,
            Err(_) => r == 0,
        },
{
    match time {
        Ok(d) => d.as_millis(),
        Err(_) => 0,
    }
}

/// The time since the Unix epoch, by a reading of the system clock.
pub(crate) fn unix_time() -> (r: Result<Duration, SystemTimeError>)
    ensures
        exists|t: SystemTime| nanos_of(r) == #[trigger] epoch_nanos(t),
{
    since_epoch(SystemTime::now())
}

/// Seconds and milliseconds are those that have passed in full.
pub proof fn whole_units_have_passed(t: SystemTime)
    ensures
        epoch_nanos(t) matches Some(n) ==> seconds_at(t) * 1_000_000_000 <= n < (seconds_at(t) + 1)
            * 1_000_000_000 && millis_at(t) * 1_000_000 <= n < (millis_at(t) + 1) * 1_000_000,
        epoch_nanos(t) is None ==> seconds_at(t) == 0 && millis_at(t) == 0,
{
}

} // verus!
