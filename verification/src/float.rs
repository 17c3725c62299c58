//! Single-precision numbers as the device sends them.

use vstd::prelude::*;

verus! {

/// An IEEE 754 single-precision number, held by its bit pattern.
///
/// The codecs carry such numbers unchanged; what the rules ask of a number
/// (finite, negative, not below another) is decided on its bits.
#[derive(Debug, Clone, Copy, PartialEq, Eq, Hash, Structural)]
pub struct Float32 {
    /// Sign, exponent and fraction, from the most significant bit down.
    pub bits: u32,
}

impl Float32 {
    /// The bit pattern without its sign.
    pub open spec fn magnitude(self) -> int {
        (self.bits % 0x8000_0000) as int
    }

    /// The sign bit.
    pub open spec fn sign(self) -> bool {
        self.bits >= 0x8000_0000
    }

    /// Neither an infinity nor "not a number".
    pub open spec fn finite(self) -> bool {
        self.magnitude() < 0x7f80_0000
    }

    /// "Not a number".
    pub open spec fn nan(self) -> bool {
        self.magnitude() > 0x7f80_0000
    }

    /// A number that grows exactly as the value grows: of two values that are
    /// numbers, the larger has the larger rank, and the two zeros share one.
    pub open spec fn rank(self) -> int {
        if self.sign() {
            -self.magnitude()
        } else {
            self.magnitude()
        }
    }

    /// `self >= other`, which never holds where either is "not a number".
    pub open spec fn not_below(self, other: Float32) -> bool {
        !self.nan() && !other.nan() && self.rank() >= other.rank()
    }

    /// `self < 0.0`.
    pub open spec fn below_zero(self) -> bool {
        !self.nan() && self.rank() < 0
    }

    /// The number zero.
    pub fn zero() -> (value: Self)
        ensures
            value.bits == 0,
    {
        Float32 { bits: 0 }
    }

    /// The number one.
    pub fn one() -> (value: Self)
        ensures
            value.bits == 0x3f80_0000,
    {
        Float32 { bits: 0x3f80_0000 }
    }

    /// Creates the number with the given bit pattern.
    pub fn from_bits(bits: u32) -> (value: Self)
        ensures
            value.bits == bits,
    {
        Float32 { bits }
    }

    /// Returns the bit pattern.
    pub fn to_bits(self) -> (bits: u32)
        ensures
            bits == self.bits,
    {
        self.bits
    }

    /// Reports whether this is neither an infinity nor "not a number".
    pub fn is_finite(self) -> (finite: bool)
        ensures
            finite == self.finite(),
    {
        self.bits % 0x8000_0000 < 0x7f80_0000
    }

    /// Reports `self < 0.0`.
    pub fn is_below_zero(self) -> (below: bool)
        ensures
            below == self.below_zero(),
    {
        let magnitude: u32 = self.bits % 0x8000_0000;
        self.bits >= 0x8000_0000 && magnitude > 0 && magnitude <= 0x7f80_0000
    }

    /// Reports `self >= other`.
    pub fn is_at_least(self, other: Self) -> (result: bool)
        ensures
            result == self.not_below(other),
    {
        let left: i64 = (self.bits % 0x8000_0000) as i64;
        let right: i64 = (other.bits % 0x8000_0000) as i64;
        if left > 0x7f80_0000 || right > 0x7f80_0000 {
            return false;
        }
        let left_rank: i64 = if self.bits >= 0x8000_0000 {
            -left
        } else {
            left
        };
        let right_rank: i64 = if other.bits >= 0x8000_0000 {
            -right
        } else {
            right
        };
        left_rank >= right_rank
    }
}

/// A number is finite where its exponent, the eight bits below the sign, is
/// not all ones. A number below zero is neither the negative zero nor "not a
/// number". Any two that are not "not a number" can be ordered, each is at
/// least itself, the order is transitive, and only the two zeros are tied.
pub proof fn lemma_order_of_numbers(left: Float32, middle: Float32, right: Float32)
    ensures
        left.finite() <==> (left.bits / 0x80_0000) % 256 != 255,
        left.nan() <==> (left.bits / 0x80_0000) % 256 == 255 && left.bits % 0x80_0000 != 0,
        left.below_zero() <==> 0x8000_0001 <= left.bits <= 0xff80_0000,
        left.not_below(right) ==> !left.nan() && !right.nan(),
        !left.nan() && !right.nan() ==> left.not_below(right) || right.not_below(left),
        left.not_below(middle) && middle.not_below(right) ==> left.not_below(right),
        left.not_below(right) && right.not_below(left) ==> left == right || (left.bits
            % 0x8000_0000 == 0 && right.bits % 0x8000_0000 == 0),
        left.bits <= right.bits <= 0x7f80_0000 ==> right.not_below(left),
        0x8000_0000 <= left.bits <= right.bits <= 0xff80_0000 ==> left.not_below(right),
        left.bits <= 0x7f80_0000 && 0x8000_0000 <= right.bits <= 0xff80_0000 ==> left.not_below(
            right,
        ),
{
}

} // verus!
