//! Trusted boundary around the monotonic clock that cost measurement uses.

use vstd::prelude::*;

verus! {

#[verifier::external_type_specification]
#[verifier::external_body]
/// A reading of std's monotonic clock.
pub struct ExInstant(std::time::Instant);

/// Relies on std's `Instant::now`: an opaque reading of the monotonic
/// clock. Nothing is stated of it.
#[verifier::external_body]
pub fn instant_now() -> std::time::Instant {
    std::time::Instant::now()
}

/// Relies on std's `Instant::elapsed`: the time since the reading, here as
/// whole microseconds, saturated at the largest representable value. The
/// value depends on the clock, so nothing is stated of it.
#[verifier::external_body]
pub fn elapsed_micros(t: &std::time::Instant) -> u64 {
    u64::try_from(t.elapsed().as_micros()).unwrap_or(u64::MAX)
}

} // verus!
