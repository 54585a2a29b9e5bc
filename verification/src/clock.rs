//! Points in time, as the scheduler sees them.

use std::time::Instant;

use vstd::prelude::*;

verus! {

/// The reading of the monotonic clock of the standard library. Nothing is
/// assumed of it.
#[verifier::external_type_specification]
#[verifier::external_body]
pub struct ExInstant(std::time::Instant);

/// `Instant::now` reads the clock. Any reading can come back.
pub assume_specification[ std::time::Instant::now ]() -> (reading: std::time::Instant);

/// Calls `Instant::elapsed`, which reads the clock again, and counts the
/// nanoseconds since `origin`. As the clock may have moved on by any amount,
/// any number can come back.
#[verifier::external_body]
fn nanos_since(origin: &Instant) -> (nanos: u128)
{
    origin.elapsed().as_nanos()
}

/// Nanoseconds in one millisecond.
pub const NANOS_PER_MILLI: u128 = 1_000_000;

/// A reading of a monotonic clock.
///
/// The origin is arbitrary, but it is the same for all readings that are
/// compared with each other.
#[derive(Debug, Clone, Copy, PartialEq, Eq, Structural)]
pub struct Timestamp {
    /// Nanoseconds since the origin of the clock.
    pub nanos: u128,
}

impl Timestamp {
    /// The whole milliseconds from `earlier` to `self`, or zero if `earlier`
    /// is the later of the two.
    pub open spec fn spec_millis_since(self, earlier: Timestamp) -> int {
        if self.nanos >= earlier.nanos {
            (self.nanos - earlier.nanos) / NANOS_PER_MILLI as int
        } else {
            0
        }
    }

    /// Returns the whole milliseconds that have passed from `earlier` to
    /// `self`, or zero if `earlier` is the later of the two.
    pub fn millis_since(&self, earlier: Timestamp) -> (millis: u128)
        ensures
            millis == self.spec_millis_since(earlier),
            self.nanos <= earlier.nanos ==> millis == 0,
            self.nanos >= earlier.nanos ==> earlier.nanos + millis * 1_000_000 <= self.nanos
                < earlier.nanos + (millis + 1) * 1_000_000,
    {
        if self.nanos >= earlier.nanos {
            (self.nanos - earlier.nanos) / NANOS_PER_MILLI
        } else {
            0
        }
    }
}

/// A clock whose origin is the moment at which it was started.
#[derive(Debug)]
pub struct Clock {
    origin: Instant,
}

impl Clock {
    /// Starts a clock.
    pub fn start() -> Self {
        Clock { origin: Instant::now() }
    }

    /// Reads the clock.
    pub fn now(&self) -> Timestamp {
        Timestamp { nanos: nanos_since(&self.origin) }
    }
}

/// The milliseconds between two readings are the most that fit between them,
/// and none fit if the first one is the later.
pub proof fn law_whole_millis_are_counted(now: Timestamp, earlier: Timestamp)
    ensures
        now.nanos <= earlier.nanos ==> now.spec_millis_since(earlier) == 0,
        now.nanos >= earlier.nanos ==> earlier.nanos + now.spec_millis_since(earlier) * 1_000_000
            <= now.nanos < earlier.nanos + (now.spec_millis_since(earlier) + 1) * 1_000_000,
{
}

/// Moving both readings by the same time changes nothing between them.
pub proof fn law_origin_does_not_matter(now: Timestamp, earlier: Timestamp, shift: u128)
    requires
        now.nanos + shift <= u128::MAX,
        earlier.nanos + shift <= u128::MAX,
    ensures
        (Timestamp { nanos: (now.nanos + shift) as u128 }).spec_millis_since(
            Timestamp { nanos: (earlier.nanos + shift) as u128 },
        ) == now.spec_millis_since(earlier),
{
}

} // verus!
