//! Spans and points of time as plain counts of nanoseconds.
//!
//! The pool never reads a clock. Whoever drives it reads one and hands the reading in as an
//! [`Instant`].

use vstd::prelude::*;

verus! {

/// A span of time, in whole nanoseconds.
#[derive(Clone, Copy, Debug, PartialEq, Eq, Structural)]
pub struct Duration {
    pub nanos: u128,
}

impl Duration {
    /// The span of `nanos` nanoseconds.
    pub fn from_nanos(nanos: u128) -> (span: Duration)
        ensures
            span.nanos == nanos,
    {
        Duration { nanos }
    }

    /// The span of `millis` milliseconds.
    pub fn from_millis(millis: u64) -> (span: Duration)
        ensures
            span.nanos == millis * 1_000_000,
    {
        Duration { nanos: millis as u128 * 1_000_000 }
    }

    /// Whether the span is empty.
    pub fn is_zero(&self) -> (zero: bool)
        ensures
            zero == (self.nanos == 0),
    {
        self.nanos == 0
    }

    /// The longer of two spans.
    pub fn max(self, other: Duration) -> (longer: Duration)
        ensures
            longer == max_duration(self, other),
    {
        if self.nanos < other.nanos {
            other
        } else {
            self
        }
    }
}

/// The longer of two spans.
pub open spec fn max_duration(a: Duration, b: Duration) -> Duration {
    if a.nanos < b.nanos {
        b
    } else {
        a
    }
}

/// A reading of a monotonic clock, in nanoseconds since a starting point that the owner of the
/// clock picks.
#[derive(Clone, Copy, Debug, PartialEq, Eq, Structural)]
pub struct Instant {
    pub nanos: u128,
}

impl Instant {
    /// The reading `nanos` nanoseconds after the clock's starting point.
    pub fn from_nanos(nanos: u128) -> (at: Instant)
        ensures
            at.nanos == nanos,
    {
        Instant { nanos }
    }

    /// How much later than `earlier` this reading is, zero if it is not later.
    pub fn saturating_duration_since(&self, earlier: Instant) -> (span: Duration)
        ensures
            span.nanos == (if self.nanos > earlier.nanos {
                self.nanos - earlier.nanos
            } else {
                0
            }),
    {
        if self.nanos > earlier.nanos {
            Duration { nanos: self.nanos - earlier.nanos }
        } else {
            Duration { nanos: 0 }
        }
    }

    /// The reading `span` after this one.
    pub fn after(&self, span: Duration) -> (later: Instant)
        requires
            self.nanos + span.nanos <= u128::MAX,
        ensures
            later.nanos == self.nanos + span.nanos,
    {
        Instant { nanos: self.nanos + span.nanos }
    }
}

} // verus!
