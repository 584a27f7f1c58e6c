//! Plain time values: spans of time and points on a monotonic clock, both
//! counted in whole nanoseconds.
//!
//! The engine never reads a clock itself. Every operation that needs the
//! current time takes it as a [`Timestamp`] from the caller, so that each
//! result is a function of the arguments alone.

use vstd::prelude::*;

verus! {

/// Nanoseconds in one microsecond.
pub const NANOS_PER_MICRO: u64 = 1_000;

/// Nanoseconds in one millisecond.
pub const NANOS_PER_MILLI: u64 = 1_000_000;

/// Nanoseconds in one second.
pub const NANOS_PER_SEC: u64 = 1_000_000_000;

/// `a * b`, or `u64::MAX` where the product does not fit.
pub open spec fn saturating_product(a: int, b: int) -> int {
    if a * b > u64::MAX {
        u64::MAX as int
    } else {
        a * b
    }
}

/// `a + b`, or `u64::MAX` where the sum does not fit.
pub open spec fn saturating_sum(a: int, b: int) -> int {
    if a + b > u64::MAX {
        u64::MAX as int
    } else {
        a + b
    }
}

/// `a - b`, or zero where `b` is the larger.
pub open spec fn saturating_difference(a: int, b: int) -> int {
    if a < b {
        0
    } else {
        a - b
    }
}

/// A span of time in whole nanoseconds. Spans longer than `u64::MAX`
/// nanoseconds (about 584 years) are held as `u64::MAX`.
#[derive(Clone, Copy, Debug, PartialEq, Eq, Structural, PartialOrd, Ord, Hash)]
pub struct Duration {
    pub nanos: u64,
}

fn scaled(count: u64, unit: u64) -> (nanos: u64)
    ensures
        nanos == saturating_product(count as int, unit as int),
{
    match count.checked_mul(unit) {
        Some(n) => n,
        None => u64::MAX,
    }
}

impl Duration {
    /// The empty span.
    pub fn zero() -> (d: Duration)
        ensures
            d.nanos == 0,
    {
        Duration { nanos: 0 }
    }

    pub fn from_nanos(nanos: u64) -> (d: Duration)
        ensures
            d.nanos == nanos,
    {
        Duration { nanos }
    }

    pub fn from_micros(micros: u64) -> (d: Duration)
        ensures
            d.nanos == saturating_product(micros as int, NANOS_PER_MICRO as int),
    {
        Duration { nanos: scaled(micros, NANOS_PER_MICRO) }
    }

    pub fn from_millis(millis: u64) -> (d: Duration)
        ensures
            d.nanos == saturating_product(millis as int, NANOS_PER_MILLI as int),
    {
        Duration { nanos: scaled(millis, NANOS_PER_MILLI) }
    }

    pub fn from_secs(secs: u64) -> (d: Duration)
        ensures
            d.nanos == saturating_product(secs as int, NANOS_PER_SEC as int),
    {
        Duration { nanos: scaled(secs, NANOS_PER_SEC) }
    }

    pub fn as_nanos(&self) -> (n: u64)
        ensures
            n == self.nanos,
    {
        self.nanos
    }

    /// Whole microseconds in the span, rounded down.
    pub fn as_micros(&self) -> (n: u64)
        ensures
            n == self.nanos / NANOS_PER_MICRO,
    {
        self.nanos / NANOS_PER_MICRO
    }

    /// Whole milliseconds in the span, rounded down.
    pub fn as_millis(&self) -> (n: u64)
        ensures
            n == self.nanos / NANOS_PER_MILLI,
    {
        self.nanos / NANOS_PER_MILLI
    }

    /// Whole seconds in the span, rounded down.
    pub fn as_secs(&self) -> (n: u64)
        ensures
            n == self.nanos / NANOS_PER_SEC,
    {
        self.nanos / NANOS_PER_SEC
    }

    pub fn is_zero(&self) -> (z: bool)
        ensures
            z == (self.nanos == 0),
    {
        self.nanos == 0
    }

    /// The two spans together, held at `u64::MAX` nanoseconds.
    pub fn saturating_add(self, other: Duration) -> (d: Duration)
        ensures
            d.nanos == saturating_sum(self.nanos as int, other.nanos as int),
    {
        Duration { nanos: self.nanos.saturating_add(other.nanos) }
    }

    /// What is left of this span after `other`, or nothing.
    pub fn saturating_sub(self, other: Duration) -> (d: Duration)
        ensures
            d.nanos == saturating_difference(self.nanos as int, other.nanos as int),
    {
        Duration { nanos: self.nanos.saturating_sub(other.nanos) }
    }
}

/// A point on a monotonic clock, in nanoseconds since an origin that the
/// caller picks once and keeps.
#[derive(Clone, Copy, Debug, PartialEq, Eq, Structural, PartialOrd, Ord, Hash)]
pub struct Timestamp {
    pub nanos: u64,
}

impl Timestamp {
    pub fn from_nanos(nanos: u64) -> (t: Timestamp)
        ensures
            t.nanos == nanos,
    {
        Timestamp { nanos }
    }

    pub fn as_nanos(&self) -> (n: u64)
        ensures
            n == self.nanos,
    {
        self.nanos
    }

    /// The span from `earlier` to this point; empty where `earlier` is in
    /// fact the later of the two.
    pub open spec fn since(self, earlier: Timestamp) -> Duration {
        Duration { nanos: saturating_difference(self.nanos as int, earlier.nanos as int) as u64 }
    }

    pub fn duration_since(&self, earlier: Timestamp) -> (d: Duration)
        ensures
            d == self.since(earlier),
    {
        Duration { nanos: self.nanos.saturating_sub(earlier.nanos) }
    }
}

} // verus!
