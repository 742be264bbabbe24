//! Points on a monotonic clock and spans between them, in nanoseconds.

use vstd::prelude::*;

verus! {

pub const NANOS_PER_SEC: u128 = 1_000_000_000;

/// A span of time.
#[derive(Debug, Clone, Copy, PartialEq, Eq, Structural)]
pub struct Duration {
    pub nanos: u128,
}

impl Duration {
    pub fn from_secs(secs: u64) -> (span: Self)
        ensures
            span.nanos == secs * NANOS_PER_SEC,
    {
        Self { nanos: secs as u128 * NANOS_PER_SEC }
    }
}

/// A point in time, counted from an origin that the owner of the clock chose.
#[derive(Debug, Clone, Copy, PartialEq, Eq, Structural)]
pub struct Instant {
    pub nanos: u128,
}

impl Instant {
    /// The point that lies `span` after this one.
    pub open spec fn after(self, span: Duration) -> Self {
        Instant { nanos: (self.nanos + span.nanos) as u128 }
    }

    /// Whether a clock that cannot count further than `horizon` can count as
    /// far as `span` after this point.
    pub open spec fn reaches(self, span: Duration, horizon: Instant) -> bool {
        self.nanos + span.nanos <= horizon.nanos
    }

    pub fn plus(self, span: Duration) -> (point: Self)
        requires
            self.nanos + span.nanos <= u128::MAX,
        ensures
            point == self.after(span),
            point.nanos == self.nanos + span.nanos,
    {
        Self { nanos: self.nanos + span.nanos }
    }

    pub fn is_later_than(self, other: Self) -> (later: bool)
        ensures
            later == (self.nanos > other.nanos),
    {
        self.nanos > other.nanos
    }
}

} // verus!
