//! The wall clock, from which project identifiers are made.
use vstd::prelude::*;
use std::time::{Duration, SystemTime};

verus! {

#[verifier::external_type_specification]
#[verifier::external_body]
pub struct ExSystemTime(SystemTime);

/// `SystemTime::now`: the current time (nothing is known of it).
#[verifier::external_body]
fn system_now() -> SystemTime {
    SystemTime::now()
}

/// `SystemTime::duration_since` the Unix epoch: `None` where the clock is
/// set before the epoch (nothing else is known of the duration).
#[verifier::external_body]
fn since_unix_epoch(t: &SystemTime) -> Option<Duration> {
    t.duration_since(std::time::UNIX_EPOCH).ok()
}

/// `Duration::as_millis`: the whole milliseconds of `d`.
#[verifier::external_body]
fn whole_millis(d: &Duration) -> u128 {
    d.as_millis()
}

/// The milliseconds since the Unix epoch, or `None` where the clock is set
/// before it. The value depends on the clock: nothing is stated of it.
pub fn unix_millis() -> Option<u128> {
    let now = system_now();
    match since_unix_epoch(&now) {
        Some(d) => Some(whole_millis(&d)),
        None => None,
    }
}

} // verus!
