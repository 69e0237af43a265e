//! The monotonic clock by which solves are timed.

use vstd::prelude::*;

verus! {

#[verifier::external_type_specification]
#[verifier::external_body]
pub struct ExInstant(instant::Instant);

/// A monotonic clock that counts milliseconds from the moment it was
/// started.
pub struct MonotonicClock {
    origin: instant::Instant,
}

impl MonotonicClock {
    /// Starts a clock at the present moment: calls `instant::Instant::now`
    /// and keeps the instant. Nothing is claimed of it.
    #[verifier::external_body]
    pub(crate) fn start() -> (clock: MonotonicClock) {
        MonotonicClock { origin: instant::Instant::now() }
    }

    /// The milliseconds that have passed since the clock was started:
    /// calls `instant::Instant::elapsed` on the kept instant and
    /// `Duration::as_millis` on what it returns, and keeps the low 64 bits
    /// of the count. Nothing is claimed of the number: it depends on when
    /// the call is made.
    #[verifier::external_body]
    pub(crate) fn now_millis(&self) -> (millis: u64) {
        self.origin.elapsed().as_millis() as u64
    }
}

} // verus!
