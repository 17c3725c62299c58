//! Spans of time in whole nanoseconds.

use vstd::prelude::*;

verus! {

/// Nanoseconds of the longest span: the largest 64-bit count of seconds and a
/// last incomplete one.
pub const MAXIMUM_NANOSECONDS: u128 = 18_446_744_073_709_551_615_999_999_999;

/// A span of time. Points in time are spans since a common origin.
#[derive(Debug, Clone, Copy, PartialEq, Eq, PartialOrd, Ord, Hash, Structural)]
pub struct Duration {
    /// Length in nanoseconds.
    pub nanos: u128,
}

/// Length of a span held at the longest one.
pub open spec fn capped(nanos: int) -> u128 {
    if nanos > MAXIMUM_NANOSECONDS {
        MAXIMUM_NANOSECONDS
    } else {
        nanos as u128
    }
}

impl Duration {
    /// The span of no time.
    pub fn zero() -> (span: Self)
        ensures
            span.nanos == 0,
    {
        Duration { nanos: 0 }
    }

    /// The longest span.
    pub fn maximum() -> (span: Self)
        ensures
            span.nanos == MAXIMUM_NANOSECONDS,
    {
        Duration { nanos: MAXIMUM_NANOSECONDS }
    }

    /// A span of whole seconds.
    pub fn from_secs(seconds: u64) -> (span: Self)
        ensures
            span.nanos == seconds * 1_000_000_000,
    {
        Duration { nanos: seconds as u128 * 1_000_000_000 }
    }

    /// A span of whole milliseconds.
    pub fn from_millis(milliseconds: u64) -> (span: Self)
        ensures
            span.nanos == milliseconds * 1_000_000,
    {
        Duration { nanos: milliseconds as u128 * 1_000_000 }
    }

    /// A span of whole microseconds.
    pub fn from_micros(microseconds: u64) -> (span: Self)
        ensures
            span.nanos == microseconds * 1_000,
    {
        Duration { nanos: microseconds as u128 * 1_000 }
    }

    /// A span of nanoseconds.
    pub fn from_nanos(nanoseconds: u64) -> (span: Self)
        ensures
            span.nanos == nanoseconds,
    {
        Duration { nanos: nanoseconds as u128 }
    }

    /// The whole milliseconds of the span.
    pub fn as_millis(self) -> (milliseconds: u128)
        ensures
            milliseconds == self.nanos / 1_000_000,
    {
        self.nanos / 1_000_000
    }

    /// The whole microseconds of the span.
    pub fn as_micros(self) -> (microseconds: u128)
        ensures
            microseconds == self.nanos / 1_000,
    {
        self.nanos / 1_000
    }

    /// Reports whether the span is empty.
    pub fn is_zero(self) -> (empty: bool)
        ensures
            empty == (self.nanos == 0),
    {
        self.nanos == 0
    }

    /// The sum of two spans, held at the longest one.
    pub fn saturating_add(self, other: Self) -> (sum: Self)
        ensures
            sum.nanos == capped(self.nanos + other.nanos),
    {
        let sum: u128 = self.nanos.saturating_add(other.nanos);
        Duration {
            nanos: if sum > MAXIMUM_NANOSECONDS {
                MAXIMUM_NANOSECONDS
            } else {
                sum
            },
        }
    }

    /// A number of spans one after the other, held at the longest.
    pub fn saturating_mul(self, count: u32) -> (product: Self)
        ensures
            product.nanos == capped(self.nanos * count),
    {
        if count == 0 {
            assert(self.nanos * count == 0) by (nonlinear_arith)
                requires
                    count == 0,
            ;
            return Duration { nanos: 0 };
        }
        if self.nanos > MAXIMUM_NANOSECONDS {
            assert(self.nanos * count >= self.nanos) by (nonlinear_arith)
                requires
                    count >= 1,
            ;
            return Duration { nanos: MAXIMUM_NANOSECONDS };
        }
        assert(0 <= self.nanos * count <= MAXIMUM_NANOSECONDS * 0xffff_ffff) by (nonlinear_arith)
            requires
                self.nanos <= MAXIMUM_NANOSECONDS,
                count <= 0xffff_ffff,
        ;
        let product: u128 = self.nanos * count as u128;
        Duration {
            nanos: if product > MAXIMUM_NANOSECONDS {
                MAXIMUM_NANOSECONDS
            } else {
                product
            },
        }
    }

    /// What is left of the span after another, or nothing.
    pub fn saturating_sub(self, other: Self) -> (rest: Self)
        ensures
            rest.nanos == if self.nanos > other.nanos {
                (self.nanos - other.nanos) as u128
            } else {
                0
            },
    {
        Duration { nanos: self.nanos.saturating_sub(other.nanos) }
    }

    /// The shorter of two spans.
    pub fn shorter(self, other: Self) -> (span: Self)
        ensures
            span == if self.nanos <= other.nanos {
                self
            } else {
                other
            },
    {
        if self.nanos <= other.nanos {
            self
        } else {
            other
        }
    }
}

/// Sums and products of spans are exact up to the longest span and stop there;
/// what is taken away from a span can be put back, and no span is negative.
pub proof fn lemma_spans(
    left: Duration,
    right: Duration,
    count: u32,
    sum: Duration,
    product: Duration,
    rest: Duration,
    least: Duration,
)
    requires
        call_ensures(Duration::saturating_add, (left, right), sum),
        call_ensures(Duration::saturating_mul, (left, count), product),
        call_ensures(Duration::saturating_sub, (left, right), rest),
        call_ensures(Duration::shorter, (left, right), least),
    ensures
        left.nanos + right.nanos <= MAXIMUM_NANOSECONDS ==> sum.nanos == left.nanos + right.nanos,
        left.nanos + right.nanos > MAXIMUM_NANOSECONDS ==> sum.nanos == MAXIMUM_NANOSECONDS,
        left.nanos * count <= MAXIMUM_NANOSECONDS ==> product.nanos == left.nanos * count,
        left.nanos * count > MAXIMUM_NANOSECONDS ==> product.nanos == MAXIMUM_NANOSECONDS,
        right.nanos <= left.nanos ==> rest.nanos + right.nanos == left.nanos,
        left.nanos <= right.nanos ==> rest.nanos == 0,
        least.nanos <= left.nanos && least.nanos <= right.nanos,
        least == left || least == right,
{
    assert(0 <= left.nanos * count) by (nonlinear_arith)
        requires
            0 <= left.nanos,
            0 <= count,
    ;
}

} // verus!
