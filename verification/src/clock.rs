//! The wall clock, in milliseconds since the Unix epoch.
use vstd::prelude::*;
use std::time::{SystemTime, SystemTimeError};
use core::time::Duration;

verus! {

#[verifier::external_type_specification]
#[verifier::external_body]
pub struct ExSystemTime(SystemTime);

#[verifier::external_type_specification]
#[verifier::external_body]
pub struct ExSystemTimeError(SystemTimeError);

/// Calls `SystemTime::now`; nothing is stated of the time it reads.
#[verifier::external_body]
fn system_now() -> SystemTime {
    SystemTime::now()
}

/// Calls `SystemTime::duration_since` with the Unix epoch; it fails when the clock is set
/// before the epoch, and nothing is stated of which outcome comes.
#[verifier::external_body]
fn since_unix_epoch(t: &SystemTime) -> Result<Duration, SystemTimeError> {
    t.duration_since(std::time::UNIX_EPOCH)
}

/// Calls `Duration::as_millis`; nothing is stated of the count it gives.
#[verifier::external_body]
fn whole_millis(d: &Duration) -> u128 {
    d.as_millis()
}

/// The Unix time in milliseconds for a clock reading: the whole milliseconds since the epoch
/// as an `i64` (truncated as the `as` conversion does), or 0 for a reading before the epoch.
pub open spec fn unix_ms_of(since_epoch_ms: Option<u128>) -> i64 {
    match since_epoch_ms {
        Some(ms) => ms as i64,
        None => 0,
    }
}

/// The Unix time in milliseconds for a clock reading (none for a reading before the epoch).
pub fn epoch_millis(since_epoch_ms: Option<u128>) -> (res: i64)
    ensures
        res == unix_ms_of(since_epoch_ms),
{
    match since_epoch_ms {
        Some(ms) => ms as i64,
        None => 0,
    }
}

/// The current time in milliseconds since the Unix epoch, or 0 when the clock reads a
/// time before the epoch: `epoch_millis` of what the clock gives.
pub fn now_unix_ms() -> i64 {
    let now = system_now();
    let reading = match since_unix_epoch(&now) {
        Ok(d) => Some(whole_millis(&d)),
        Err(_) => None,
    };
    epoch_millis(reading)
}

} // verus!
