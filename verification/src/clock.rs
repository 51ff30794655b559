//! The clock of a run: milliseconds since its start.
//!
//! Readings come from tokio's clock, the one that the timers of its runtime
//! go by. Nothing is claimed of a reading: the rest of the library takes
//! the time as a plain number and is verified for every value of it.
use vstd::prelude::*;
use tokio::time::Instant;

verus! {

/// `tokio::time::Instant`, an opaque point in time.
#[verifier::external_type_specification]
#[verifier::external_body]
pub struct ExInstant(tokio::time::Instant);

/// `tokio::time::Instant::now` reads the clock. Nothing is claimed of the
/// instant it returns.
pub assume_specification[ tokio::time::Instant::now ]() -> (now: tokio::time::Instant)
;

/// `tokio::time::Instant::duration_since` measures the time from `earlier`
/// to `later`, and gives zero where `earlier` is the later one; it does not
/// panic. Nothing is claimed of the duration it returns.
pub assume_specification[ tokio::time::Instant::duration_since ](
    later: &tokio::time::Instant,
    earlier: tokio::time::Instant,
) -> (elapsed: core::time::Duration)
;

/// `core::time::Duration::as_secs` gives the whole seconds of a duration.
/// Nothing is claimed of the number.
pub assume_specification[ core::time::Duration::as_secs ](d: &core::time::Duration) -> (secs: u64)
;

/// `core::time::Duration::subsec_millis` gives the part of a duration below
/// one second in whole milliseconds, which is less than one thousand.
pub assume_specification[ core::time::Duration::subsec_millis ](d: &core::time::Duration) -> (ms:
    u32)
    ensures
        ms < 1000,
;

/// The milliseconds in `secs` seconds and `subsec_millis` milliseconds, or
/// the largest number of the type where they do not fit.
pub open spec fn millis_of(secs: u64, subsec_millis: u32) -> u64 {
    if secs * 1000 + subsec_millis <= u64::MAX {
        (secs * 1000 + subsec_millis) as u64
    } else {
        u64::MAX
    }
}

/// Seconds and milliseconds as milliseconds.
pub fn to_millis(secs: u64, subsec_millis: u32) -> (ms: u64)
    ensures
        ms == millis_of(secs, subsec_millis),
{
    match secs.checked_mul(1000) {
        Some(whole) => match whole.checked_add(subsec_millis as u64) {
            Some(ms) => ms,
            None => u64::MAX,
        },
        None => u64::MAX,
    }
}

/// A clock that counts from the moment it was started.
pub struct Clock {
    t0: Instant,
}

impl Clock {
    /// A clock that starts now.
    pub fn start() -> Clock {
        Clock { t0: Instant::now() }
    }

    /// Milliseconds since the clock was started.
    pub fn get_time(&self) -> u64 {
        let now = Instant::now();
        let d = now.duration_since(self.t0);
        to_millis(d.as_secs(), d.subsec_millis())
    }
}

} // verus!
