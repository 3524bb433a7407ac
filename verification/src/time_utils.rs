//! Time helpers.
//!
//! The limiters only need a monotonic-ish notion of "seconds since the Unix
//! epoch". It is read from `std::time::SystemTime`, and a clock set before the
//! epoch becomes a `RateLimitError` instead of a panic.

use std::time::{Duration, SystemTime, SystemTimeError, UNIX_EPOCH};
use vstd::prelude::*;

use crate::errors::RateLimitError;

verus! {

/// `std::time::SystemTime`, declared opaque.
#[verifier::external_type_specification]
#[verifier::external_body]
pub struct ExSystemTime(SystemTime);

/// `std::time::SystemTimeError`, declared opaque.
#[verifier::external_type_specification]
#[verifier::external_body]
pub struct ExSystemTimeError(SystemTimeError);

/// `SystemTime::now`: the system clock's current reading. What it reads rests
/// on the machine, so nothing is promised of it.
#[verifier::external_body]
fn clock_now() -> (t: SystemTime) {
    SystemTime::now()
}

/// `SystemTime::duration_since(UNIX_EPOCH)`: the time from the epoch to `t`,
/// or an error when `t` lies before the epoch. Both values are opaque here.
#[verifier::external_body]
fn since_unix_epoch(t: &SystemTime) -> (since: Result<Duration, SystemTimeError>) {
    t.duration_since(UNIX_EPOCH)
}

/// `Duration::as_secs`: the whole seconds of `d`. `Duration` is opaque here,
/// so the result is not tied to `d` by any clause.
#[verifier::external_body]
fn whole_seconds(d: &Duration) -> (secs: u64) {
    d.as_secs()
}

/// `ToString::to_string` on a `SystemTimeError` (its `Display` text). The
/// error is opaque here, so the text is not stated.
#[verifier::external_body]
fn clock_error_text(e: &SystemTimeError) -> (text: String) {
    e.to_string()
}

/// Returns the current time as whole seconds since the Unix epoch.
///
/// Returns `Err` if the system clock is set before the Unix epoch; that is the
/// only error it gives.
pub fn now_seconds() -> (now: Result<u64, RateLimitError>)
    ensures
        now matches Err(e) ==> e is SystemTime,
{
    let t = clock_now();
    match since_unix_epoch(&t) {
        Ok(d) => Ok(whole_seconds(&d)),
        Err(e) => Err(RateLimitError::SystemTime(clock_error_text(&e))),
    }
}

} // verus!
