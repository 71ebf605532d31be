//! Wall-clock time in milliseconds since the Unix epoch.

use std::time::{Duration, SystemTime, SystemTimeError, UNIX_EPOCH};
use vstd::prelude::*;

verus! {

#[verifier::external_type_specification]
#[verifier::external_body]
pub struct ExSystemTime(SystemTime);

#[verifier::external_type_specification]
#[verifier::external_body]
pub struct ExSystemTimeError(SystemTimeError);

/// `SystemTime::now`: the current time (nothing is promised of it).
#[verifier::external_body]
fn system_now() -> SystemTime {
    SystemTime::now()
}

/// `SystemTime::duration_since(UNIX_EPOCH)`: time since the epoch, or an error
/// when the clock reads earlier than the epoch.
#[verifier::external_body]
fn since_epoch(t: &SystemTime) -> Result<Duration, SystemTimeError> {
    t.duration_since(UNIX_EPOCH)
}

/// `Duration::as_millis`.
#[verifier::external_body]
fn duration_millis(d: &Duration) -> u128 {
    d.as_millis()
}

/// Milliseconds since the Unix epoch (0 if the clock reads before it),
/// truncated to 64 bits.
pub fn now_ms() -> u64 {
    let t = system_now();
    match since_epoch(&t) {
        Ok(d) => duration_millis(&d) as u64,
        Err(_) => 0,
    }
}

} // verus!
