//! The system clock, read in nanoseconds since the Unix epoch.
use vstd::prelude::*;
use std::time::{Duration, SystemTime};

verus! {

/// `std::time::SystemTime`, carried through opaquely.
#[verifier::external_type_specification]
#[verifier::external_body]
pub struct ExSystemTime(SystemTime);

/// Reads the clock (`SystemTime::now`). Nothing is claimed of the reading.
#[verifier::external_body]
fn system_now() -> SystemTime {
    SystemTime::now()
}

/// `SystemTime::duration_since(UNIX_EPOCH)`, with its error turned into `None`
/// (the documented case: `t` lies before the epoch). Nothing is claimed of the result.
#[verifier::external_body]
fn since_unix_epoch(t: &SystemTime) -> Option<Duration> {
    t.duration_since(std::time::UNIX_EPOCH).ok()
}

/// `Duration::as_nanos`. Nothing is claimed of the result.
#[verifier::external_body]
fn duration_nanos(d: &Duration) -> u128 {
    d.as_nanos()
}

/// Nanoseconds since the Unix epoch by the system clock; `None` where the clock
/// reads a time before the epoch.
pub fn now_ns() -> Option<u128> {
    let t = system_now();
    match since_unix_epoch(&t) {
        Some(d) => Some(duration_nanos(&d)),
        None => None,
    }
}

} // verus!
