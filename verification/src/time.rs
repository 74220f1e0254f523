//! Clock access that never panics: a clock set before the Unix epoch
//! reads as zero instead of aborting.
use std::time::{Duration, SystemTime, UNIX_EPOCH};
use vstd::prelude::*;

verus! {

#[verifier::external_type_specification]
#[verifier::external_body]
pub struct ExSystemTime(SystemTime);

/// Calls `SystemTime::now`. Nothing is claimed of the instant it returns.
#[verifier::external_body]
fn system_now() -> (t: SystemTime) {
    SystemTime::now()
}

/// Calls `SystemTime::duration_since(UNIX_EPOCH)` and keeps the duration,
/// or `None` where the instant lies before the epoch. Nothing is claimed
/// of the duration itself.
#[verifier::external_body]
fn since_epoch(t: SystemTime) -> (d: Option<Duration>) {
    t.duration_since(UNIX_EPOCH).ok()
}

/// Calls `Duration::as_secs`: the whole seconds of the duration.
#[verifier::external_body]
fn duration_secs(d: &Duration) -> (s: u64) {
    d.as_secs()
}

/// Calls `Duration::as_millis`: the whole milliseconds of the duration.
#[verifier::external_body]
fn duration_millis(d: &Duration) -> (ms: u128) {
    d.as_millis()
}

/// Returns `Duration::ZERO`.
#[verifier::external_body]
fn zero_duration() -> (d: Duration) {
    Duration::ZERO
}

/// The seconds since the epoch, or 0 where the clock read before it.
pub fn secs_or_zero(since: Option<u64>) -> (secs: u64)
    ensures
        secs == (match since {
            Some(x) => x,
            None => 0,
        }),
{
    match since {
        Some(x) => x,
        None => 0,
    }
}

/// The milliseconds since the epoch, or 0 where the clock read before it.
pub fn millis_or_zero(since: Option<u128>) -> (millis: u128)
    ensures
        millis == (match since {
            Some(x) => x,
            None => 0,
        }),
{
    match since {
        Some(x) => x,
        None => 0,
    }
}

/// The duration since the epoch, or `fallback` where the clock read before
/// it.
pub fn duration_or(since: Option<Duration>, fallback: Duration) -> (d: Duration)
    ensures
        d == (match since {
            Some(x) => x,
            None => fallback,
        }),
{
    match since {
        Some(x) => x,
        None => fallback,
    }
}

/// Unix time in seconds; `0` when the clock reads before the epoch.
pub fn unix_now() -> (secs: u64) {
    let since = match since_epoch(system_now()) {
        Some(d) => Some(duration_secs(&d)),
        None => None,
    };
    secs_or_zero(since)
}

/// Unix time in milliseconds; `0` when the clock reads before the epoch.
pub fn unix_now_millis() -> (millis: u128) {
    let since = match since_epoch(system_now()) {
        Some(d) => Some(duration_millis(&d)),
        None => None,
    };
    millis_or_zero(since)
}

/// The whole duration since the Unix epoch; `Duration::ZERO` when the clock
/// reads before the epoch.
pub fn unix_duration() -> (d: Duration) {
    duration_or(since_epoch(system_now()), zero_duration())
}

} // verus!
