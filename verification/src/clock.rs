//! Monotonic clock readings, as used by the race cooldown.
use std::time::Instant;
use vstd::prelude::*;

verus! {

#[verifier::external_type_specification]
#[verifier::external_body]
pub struct ExInstant(Instant);

/// Calls `std::time::Instant::now`. The reading depends on the machine's clock,
/// so nothing is claimed of the instant that comes back.
#[verifier::external_body]
pub(crate) fn instant_now() -> (now: Instant) {
    Instant::now()
}

/// Calls `std::time::Instant::elapsed` on `origin` and hands out the
/// duration as whole nanoseconds. The reading depends on the machine's
/// clock, so nothing is claimed of it.
#[verifier::external_body]
pub(crate) fn nanos_since(origin: &Instant) -> (nanos: u128) {
    origin.elapsed().as_nanos()
}

} // verus!
