//! Virtual time for the emulation kernel.
//!
//! A point on the emulated timeline (`Instant`) and a span between two such
//! points (`Duration`) are both measured in femtoseconds, so that fractional
//! nanosecond clock periods (such as 1/700 s) stay exact.

use vstd::prelude::*;

verus! {

/// Femtoseconds per nanosecond.
pub const FEMTOS_PER_NANOSEC: u128 = 1_000_000;

/// Femtoseconds per millisecond.
pub const FEMTOS_PER_MILLISEC: u128 = 1_000_000_000_000;

/// A non-negative span on the virtual timeline, in femtoseconds.
#[derive(Clone, Copy, Debug, PartialEq, Eq, Structural)]
pub struct Duration {
    /// Length of the span in femtoseconds.
    pub fs: u128,
}

impl Duration {
    /// The zero-length span.
    pub fn zero() -> (r: Duration)
        ensures
            r.fs == 0,
    {
        Duration { fs: 0 }
    }

    /// Builds a duration from a count of nanoseconds.
    pub fn from_nanos(nanosecs: u64) -> (r: Duration)
        ensures
            r.fs == nanosecs * FEMTOS_PER_NANOSEC,
    {
        Duration { fs: (nanosecs as u128) * FEMTOS_PER_NANOSEC }
    }

    /// Builds a duration from a count of milliseconds.
    pub fn from_millis(millisecs: u64) -> (r: Duration)
        ensures
            r.fs == millisecs * FEMTOS_PER_MILLISEC,
    {
        Duration { fs: (millisecs as u128) * FEMTOS_PER_MILLISEC }
    }

    /// Sum of two spans, or `None` when the sum does not fit.
    pub fn checked_add(self, rhs: Duration) -> (r: Option<Duration>)
        ensures
            self.fs + rhs.fs <= u128::MAX ==> r == Some(Duration { fs: (self.fs + rhs.fs) as u128 }),
            self.fs + rhs.fs > u128::MAX ==> r is None,
    {
        if self.fs <= u128::MAX - rhs.fs {
            Some(Duration { fs: self.fs + rhs.fs })
        } else {
            None
        }
    }

    /// Difference of two spans, or `None` when `rhs` is the longer one.
    pub fn checked_sub(self, rhs: Duration) -> (r: Option<Duration>)
        ensures
            rhs.fs <= self.fs ==> r == Some(Duration { fs: (self.fs - rhs.fs) as u128 }),
            rhs.fs > self.fs ==> r is None,
    {
        if rhs.fs <= self.fs {
            Some(Duration { fs: self.fs - rhs.fs })
        } else {
            None
        }
    }

    /// How many whole copies of `rhs` fit into `self`.
    pub fn div_duration(self, rhs: Duration) -> (r: u128)
        requires
            rhs.fs > 0,
        ensures
            r == self.fs / rhs.fs,
    {
        self.fs / rhs.fs
    }
}

/// A monotonic point on the emulation timeline, measured from the origin
/// in femtoseconds.
#[derive(Clone, Copy, Debug, PartialEq, Eq, Structural)]
pub struct Instant {
    /// Femtoseconds since the start of the timeline.
    pub fs: u128,
}

impl Instant {
    /// The origin of the timeline.
    pub fn start() -> (r: Instant)
        ensures
            r.fs == 0,
    {
        Instant { fs: 0 }
    }

    /// The point reached after waiting `duration` from `self`, or `None`
    /// when that point does not fit on the timeline.
    pub fn checked_add(self, duration: Duration) -> (r: Option<Instant>)
        ensures
            self.fs + duration.fs <= u128::MAX ==> r == Some(
                Instant { fs: (self.fs + duration.fs) as u128 },
            ),
            self.fs + duration.fs > u128::MAX ==> r is None,
    {
        if self.fs <= u128::MAX - duration.fs {
            Some(Instant { fs: self.fs + duration.fs })
        } else {
            None
        }
    }

    /// The span from the origin to `self`.
    pub fn as_duration(self) -> (r: Duration)
        ensures
            r.fs == self.fs,
    {
        Duration { fs: self.fs }
    }

    /// Whether `self` lies strictly before `other` on the timeline.
    pub fn is_before(self, other: Instant) -> (r: bool)
        ensures
            r == (self.fs < other.fs),
    {
        self.fs < other.fs
    }
}

} // verus!
