//! Reading the wall clock as whole seconds since the Unix epoch.

use vstd::prelude::*;
use std::time::{Duration, SystemTime, SystemTimeError, UNIX_EPOCH};

verus! {

#[verifier::external_type_specification]
#[verifier::external_body]
pub struct ExSystemTime(SystemTime);

#[verifier::external_type_specification]
#[verifier::external_body]
pub struct ExSystemTimeError(SystemTimeError);

/// `SystemTime::now`: the current time of the system clock. Nothing is
/// stated of it: it depends on the moment of the call.
#[verifier::external_body]
fn system_time_now() -> SystemTime {
    SystemTime::now()
}

/// `SystemTime::duration_since` the Unix epoch: `Err` where the time lies
/// before the epoch. Nothing is stated of which: that rests on the clock.
#[verifier::external_body]
fn since_unix_epoch(t: &SystemTime) -> Result<Duration, SystemTimeError> {
    t.duration_since(UNIX_EPOCH)
}

/// `Duration::as_secs`: the whole seconds of the duration. Nothing is stated
/// of the value: a `Duration` is opaque here.
#[verifier::external_body]
fn whole_seconds(d: &Duration) -> u64 {
    d.as_secs()
}

/// The current time as whole seconds since the Unix epoch (the seconds
/// reinterpreted as `i64`), or `None` where the system clock reads a time
/// before the epoch.
pub fn current_timestamp() -> Option<i64> {
    let now = system_time_now();
    match since_unix_epoch(&now) {
        Ok(d) => Some(whole_seconds(&d) as i64),
        Err(_) => None,
    }
}

} // verus!
