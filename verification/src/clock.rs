//! The queue's time source: a monotonic clock read in whole nanoseconds.

use tokio::time::Instant;
use vstd::prelude::*;

verus! {

/// Makes `tokio::time::Instant` known as a type whose values are carried
/// about and never looked into.
#[verifier::external_type_specification]
#[verifier::external_body]
pub struct ExInstant(tokio::time::Instant);

/// Nanoseconds in one second.
pub const NANOS_PER_SECOND: u64 = 1_000_000_000;

/// The length in nanoseconds of a span of `seconds` whole seconds and
/// `subsec_nanos` further nanoseconds, capped at the largest `u64`.
pub open spec fn span_nanos(seconds: u64, subsec_nanos: u32) -> u64 {
    if seconds * NANOS_PER_SECOND + subsec_nanos > u64::MAX {
        u64::MAX
    } else {
        (seconds * NANOS_PER_SECOND + subsec_nanos) as u64
    }
}

/// Computes [`span_nanos`].
pub fn nanos_of(seconds: u64, subsec_nanos: u32) -> (nanos: u64)
    ensures
        nanos == span_nanos(seconds, subsec_nanos),
{
    if seconds > u64::MAX / NANOS_PER_SECOND {
        u64::MAX
    } else {
        let whole: u64 = seconds * NANOS_PER_SECOND;
        if subsec_nanos as u64 > u64::MAX - whole {
            u64::MAX
        } else {
            whole + subsec_nanos as u64
        }
    }
}

/// A monotonic clock that counts nanoseconds from the instant it was
/// started. The clock remembers the latest reading it has given out and never
/// shows less, whatever the time source below it does.
#[derive(Debug)]
pub struct Clock {
    origin: Instant,
    latest: u64,
}

impl View for Clock {
    type V = u64;

    /// The latest reading that [`Clock::now`] has given out; zero before
    /// the first.
    closed spec fn view(&self) -> u64 {
        self.latest
    }
}

impl Clock {
    /// Starts a clock whose origin is the present instant.
    pub fn start() -> (clock: Clock)
        ensures
            clock@ == 0,
    {
        Clock { origin: present_instant(), latest: 0 }
    }

    /// Looks at the clock without recording the reading.
    pub fn read(&self) -> (reading: u64)
        ensures
            reading >= self@,
    {
        let nanos: u128 = nanos_since(&self.origin);
        let shown: u64 = if nanos > u64::MAX as u128 {
            u64::MAX
        } else {
            nanos as u64
        };
        if shown < self.latest {
            self.latest
        } else {
            shown
        }
    }

    /// Takes a reading and records it. How far the clock has moved is the
    /// time source's affair; that it has not moved backwards is certain.
    pub fn now(&mut self) -> (reading: u64)
        ensures
            reading >= old(self)@,
            final(self)@ == reading,
    {
        let reading: u64 = self.read();
        self.latest = reading;
        reading
    }
}

/// Calls `tokio::time::Instant::now`. The result is the runtime's notion of
/// the present instant, so nothing is claimed of it.
#[verifier::external_body]
fn present_instant() -> Instant {
    Instant::now()
}

/// Calls `tokio::time::Instant::elapsed` and gives the duration as whole
/// nanoseconds (`Duration::as_nanos`). The result depends on when the call is
/// made, so nothing is claimed of it.
#[verifier::external_body]
fn nanos_since(origin: &Instant) -> u128 {
    origin.elapsed().as_nanos()
}

} // verus!
