//! Spans of time, and points in time as spans since a common start.

use vstd::prelude::*;

verus! {

/// The longest span: as many seconds as 64 bits can count, and all but one
/// nanosecond of another one.
pub const MAX_NANOS: u128 = 18_446_744_073_709_551_615_999_999_999;

/// A span of time.
#[derive(Clone, Copy, Debug, PartialEq, Eq, PartialOrd, Ord, Structural)]
pub struct Span {
    pub nanos: u128,
}

/// The span of this many seconds.
pub open spec fn seconds(secs: nat) -> Span {
    Span { nanos: (secs * 1_000_000_000) as u128 }
}

/// The sum of two spans, or the longest span where the sum is longer.
pub open spec fn later(a: Span, b: Span) -> Span {
    if a.nanos + b.nanos <= MAX_NANOS {
        Span { nanos: (a.nanos + b.nanos) as u128 }
    } else {
        Span { nanos: MAX_NANOS }
    }
}

/// What is left of `a` after `b`.
pub open spec fn remainder(a: Span, b: Span) -> Span {
    if a.nanos <= b.nanos {
        Span { nanos: 0 }
    } else {
        Span { nanos: (a.nanos - b.nanos) as u128 }
    }
}

impl Span {
    /// No time at all.
    pub fn zero() -> (span: Self)
        ensures
            span.nanos == 0,
    {
        Self { nanos: 0 }
    }

    /// The longest span.
    pub fn longest() -> (span: Self)
        ensures
            span.nanos == MAX_NANOS,
    {
        Self { nanos: MAX_NANOS }
    }

    /// The span of this many seconds.
    pub fn from_secs(secs: u64) -> (span: Self)
        ensures
            span == seconds(secs as nat),
    {
        Self { nanos: secs as u128 * 1_000_000_000 }
    }

    /// The span of this many milliseconds.
    pub fn from_millis(millis: u64) -> (span: Self)
        ensures
            span.nanos == millis * 1_000_000,
    {
        Self { nanos: millis as u128 * 1_000_000 }
    }

    /// The sum of two spans, or the longest span where the sum is longer.
    pub fn saturating_add(self, other: Self) -> (span: Self)
        ensures
            span == later(self, other),
    {
        if self.nanos >= MAX_NANOS || other.nanos > MAX_NANOS - self.nanos {
            Self { nanos: MAX_NANOS }
        } else {
            Self { nanos: self.nanos + other.nanos }
        }
    }

    /// What is left of the span after another one.
    pub fn saturating_sub(self, other: Self) -> (span: Self)
        ensures
            span == remainder(self, other),
    {
        if self.nanos <= other.nanos {
            Self { nanos: 0 }
        } else {
            Self { nanos: self.nanos - other.nanos }
        }
    }

    /// The shorter of two spans.
    pub fn min(self, other: Self) -> (span: Self)
        ensures
            span == if self.nanos <= other.nanos {
                self
            } else {
                other
            },
    {
        if self.nanos <= other.nanos {
            self
        } else {
            other
        }
    }

    /// The longer of two spans.
    pub fn max(self, other: Self) -> (span: Self)
        ensures
            span == if self.nanos >= other.nanos {
                self
            } else {
                other
            },
    {
        if self.nanos >= other.nanos {
            self
        } else {
            other
        }
    }

    /// Whether the span is no time at all.
    pub fn is_zero(self) -> (zero: bool)
        ensures
            zero == (self.nanos == 0),
    {
        self.nanos == 0
    }
}

} // verus!
