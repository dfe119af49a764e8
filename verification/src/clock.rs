//! The wall clock, in milliseconds since the Unix epoch.
use vstd::prelude::*;

use core::time::Duration;
use std::time::SystemTime;

verus! {

#[verifier::external_type_specification]
#[verifier::external_body]
pub struct ExSystemTime(SystemTime);

/// Calls `SystemTime::now`: what the wall clock reads. Nothing is stated
/// of the reading.
#[verifier::external_body]
fn system_time_now() -> SystemTime {
    SystemTime::now()
}

/// Calls `SystemTime::duration_since` with the Unix epoch: the time since
/// the epoch, or `None` when `t` is earlier. Nothing is stated of when
/// `t` is earlier or of the duration.
#[verifier::external_body]
fn since_unix_epoch(t: &SystemTime) -> Option<Duration> {
    match t.duration_since(std::time::UNIX_EPOCH) {
        Ok(d) => Some(d),
        Err(_) => None,
    }
}

/// Calls `Duration::as_millis`: the whole milliseconds of a duration.
/// Nothing is stated of the number.
#[verifier::external_body]
fn duration_millis(d: &Duration) -> u128 {
    d.as_millis()
}

/// Milliseconds elapsed since the Unix epoch by the wall clock (their low
/// 64 bits), or 0 when the clock reads earlier than the epoch.
pub fn now_millis() -> u64 {
    match since_unix_epoch(&system_time_now()) {
        Some(d) => {
            let ms: u128 = duration_millis(&d);
            #[verifier::truncate]
            (ms as u64)
        },
        None => 0,
    }
}

} // verus!
