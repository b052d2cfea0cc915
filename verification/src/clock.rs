//! The clock that turns are timed by.

use std::time::{Instant, SystemTime};

use vstd::prelude::*;

verus! {

/// `std::time::Instant`, a moment on a clock that never goes back.
#[verifier::external_type_specification]
#[verifier::external_body]
pub struct ExInstant(Instant);

/// `Instant::now`. Nothing is said of the moment.
#[verifier::external_body]
pub(crate) fn now() -> (r: Instant) {
    Instant::now()
}

/// `Instant::elapsed`, in nanoseconds. Nothing is said of how many have passed.
#[verifier::external_body]
pub(crate) fn nanoseconds_since(start: &Instant) -> (r: u128) {
    start.elapsed().as_nanos()
}

/// `std::time::SystemTime`, a time of day.
#[verifier::external_type_specification]
#[verifier::external_body]
pub struct ExSystemTime(SystemTime);

/// `SystemTime::now`. Nothing is said of the time.
#[verifier::external_body]
fn time_now() -> (r: SystemTime) {
    SystemTime::now()
}

/// `SystemTime::duration_since` the Unix epoch, in whole seconds; `None` where it fails because the
/// time stands before the epoch. Nothing is said of how many have passed.
#[verifier::external_body]
fn seconds_since_epoch(time: SystemTime) -> (r: Option<u64>) {
    time.duration_since(std::time::UNIX_EPOCH).ok().map(|duration| duration.as_secs())
}

/// The seconds of a clock, zero where it stands before the epoch.
pub fn seconds_or_zero(seconds: Option<u64>) -> (r: u64)
    ensures
        r == match seconds {
            Some(seconds) => seconds,
            None => 0,
        },
{
    match seconds {
        Some(seconds) => seconds,
        None => 0,
    }
}

/// The time in seconds since the Unix epoch, zero where the clock stands before it. Which time that
/// is, the clock alone decides.
pub(crate) fn unix_timestamp() -> (r: u64) {
    seconds_or_zero(seconds_since_epoch(time_now()))
}

} // verus!
