use std::time::Duration;
use std::time::Instant;
use std::time::SystemTime;
use std::time::SystemTimeError;
use vstd::prelude::*;

verus! {

/// `std::time::Instant`, a reading of the monotonic clock, carried through
/// unopened.
#[verifier::external_type_specification]
#[verifier::external_body]
pub struct ExInstant(std::time::Instant);

/// Calls `Instant::now`. Nothing is claimed of the reading: it depends on the
/// clock.
#[verifier::external_body]
pub(crate) fn instant_now() -> Instant {
    Instant::now()
}

/// Calls `Instant::elapsed`. Nothing is claimed of the duration: it depends on
/// the clock.
#[verifier::external_body]
pub(crate) fn instant_elapsed(t: &Instant) -> Duration {
    t.elapsed()
}

/// Calls `Duration::as_millis`. Nothing is claimed of the result, since the
/// durations handed to it are clock readings.
#[verifier::external_body]
pub(crate) fn duration_as_millis(d: &Duration) -> u128 {
    d.as_millis()
}

/// `std::time::SystemTime`, a reading of the wall clock, carried through
/// unopened.
#[verifier::external_type_specification]
#[verifier::external_body]
pub struct ExSystemTime(std::time::SystemTime);

/// `std::time::SystemTimeError`, carried through unopened.
#[verifier::external_type_specification]
#[verifier::external_body]
pub struct ExSystemTimeError(std::time::SystemTimeError);

/// Calls `SystemTime::now`. Nothing is claimed of the reading.
#[verifier::external_body]
pub(crate) fn system_time_now() -> SystemTime {
    SystemTime::now()
}

/// Calls `SystemTime::duration_since` with the Unix epoch. Nothing is claimed
/// of the result: it depends on the clock.
#[verifier::external_body]
pub(crate) fn duration_since_unix_epoch(t: &SystemTime) -> Result<Duration, SystemTimeError> {
    t.duration_since(std::time::UNIX_EPOCH)
}

/// Calls `Duration::default`, the zero duration.
#[verifier::external_body]
pub(crate) fn duration_default() -> Duration {
    Duration::default()
}

/// The current wall-clock time in milliseconds since the Unix epoch (zero
/// when the clock reads before it), cut to 64 bits.
pub(crate) fn unix_millis_now() -> u64 {
    let now = system_time_now();
    let since = match duration_since_unix_epoch(&now) {
        Ok(d) => d,
        Err(_) => duration_default(),
    };
    let millis = duration_as_millis(&since);
    millis as u64
}

} // verus!
