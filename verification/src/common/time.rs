//! Time related common utility functions.

use std::time::{Duration, SystemTime, SystemTimeError};
use vstd::prelude::*;

verus! {

/// `std::time::SystemTime`, a reading of the machine's clock. A value of it is only
/// carried from `SystemTime::now` to `SystemTime::duration_since`.
#[verifier::external_type_specification]
#[verifier::external_body]
pub struct ExSystemTime(SystemTime);

/// `std::time::SystemTimeError`, which `SystemTime::duration_since` returns where the
/// clock lies before the time that it is measured from.
#[verifier::external_type_specification]
#[verifier::external_body]
pub struct ExSystemTimeError(SystemTimeError);

/// `SystemTime::now` reads the machine's clock: nothing is claimed of what it returns.
pub assume_specification[ SystemTime::now ]() -> (now: SystemTime);

/// `SystemTime::duration_since`, measured from `UNIX_EPOCH`. Whether the clock lies
/// before or after the epoch is the machine's affair: nothing is claimed of the result.
#[verifier::external_body]
fn since_unix_epoch(time: &SystemTime) -> (elapsed: Result<Duration, SystemTimeError>) {
    time.duration_since(std::time::UNIX_EPOCH)
}

/// `Duration::as_secs`: the whole seconds of a duration. No bound is claimed.
pub assume_specification[ Duration::as_secs ](duration: &Duration) -> (secs: u64);

/// `Duration::subsec_millis`: the fractional part of a duration in whole milliseconds,
/// which std documents to be less than one thousand.
pub assume_specification[ Duration::subsec_millis ](duration: &Duration) -> (millis: u32)
    ensures
        millis < 1000,
;

/// The number of milliseconds in `secs` seconds and `subsec_millis` milliseconds.
pub open spec fn millis_spec(secs: u64, subsec_millis: u32) -> int {
    secs * 1000 + subsec_millis
}

/// Returns the milliseconds in `secs` seconds and `subsec_millis` milliseconds, or `None`
/// where they do not fit in 64 bits.
pub fn to_millis(secs: u64, subsec_millis: u32) -> (millis: Option<u64>)
    ensures
        millis == if millis_spec(secs, subsec_millis) <= u64::MAX {
            Some(millis_spec(secs, subsec_millis) as u64)
        } else {
            None
        },
{
    match secs.checked_mul(1000) {
        Some(whole) => whole.checked_add(subsec_millis as u64),
        None => None,
    }
}

/// Returns the unix time in milliseconds, or `None` where the system clock reads a time
/// before the Unix epoch or too late to count in 64 bits.
pub fn get_unix_time_millis() -> Option<u64> {
    let now = SystemTime::now();
    match since_unix_epoch(&now) {
        Ok(elapsed) => to_millis(elapsed.as_secs(), elapsed.subsec_millis()),
        Err(_) => None,
    }
}

} // verus!
