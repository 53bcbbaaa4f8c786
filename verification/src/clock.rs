//! The monotonic clock, for measuring how long a selection took.

use std::time::{Duration, Instant};
use vstd::prelude::*;

verus! {

/// A reading of the monotonic clock of `std::time`.
#[verifier::external_type_specification]
#[verifier::external_body]
pub struct ExInstant(Instant);

/// Reads the clock: `std::time::Instant::now`. Nothing is claimed of the reading.
#[verifier::external_body]
pub(crate) fn clock_now() -> (reading: Instant) {
    Instant::now()
}

/// The time since a reading: `std::time::Instant::elapsed`. Nothing is claimed of it.
#[verifier::external_body]
pub(crate) fn time_since(reading: &Instant) -> (elapsed: Duration) {
    reading.elapsed()
}

} // verus!
