//! Double-precision numbers, held by their bit pattern.
//!
//! The matchers compare numbers as IEEE-754 does: a NaN is unordered and
//! unequal to everything, the two zeros are equal, and every other pair is
//! ordered by sign and magnitude.

use vstd::prelude::*;

verus! {

/// The bit that carries the sign.
pub const SIGN_BIT: u64 = 0x8000_0000_0000_0000;

/// The magnitude of the infinities: every exponent bit set, no fraction bit.
pub const INFINITY_MAGNITUDE: u64 = 0x7ff0_0000_0000_0000;

/// An IEEE-754 double, in the layout of its 64 bits: sign, then eleven
/// exponent bits, then the fraction.
#[derive(Clone, Copy, Debug)]
pub struct Float {
    pub bits: u64,
}

impl Float {
    /// Whether the sign bit is set.
    pub open spec fn negative(self) -> bool {
        self.bits >= SIGN_BIT
    }

    /// The bits without the sign.
    pub open spec fn magnitude(self) -> int {
        if self.negative() {
            self.bits - SIGN_BIT
        } else {
            self.bits as int
        }
    }

    /// Not a number: the exponent is all ones and the fraction is not zero.
    pub open spec fn nan(self) -> bool {
        self.magnitude() > INFINITY_MAGNITUDE
    }

    /// Neither a NaN nor an infinity.
    pub open spec fn finite(self) -> bool {
        self.magnitude() < INFINITY_MAGNITUDE
    }

    /// Where the number stands among the others: its magnitude, negated below
    /// zero, so that both zeros stand at 0.
    pub open spec fn rank(self) -> int {
        if self.negative() {
            -self.magnitude()
        } else {
            self.magnitude()
        }
    }

    /// Numeric equality.
    pub open spec fn same(self, other: Float) -> bool {
        !self.nan() && !other.nan() && self.rank() == other.rank()
    }

    /// Numeric `<`.
    pub open spec fn below(self, other: Float) -> bool {
        !self.nan() && !other.nan() && self.rank() < other.rank()
    }

    /// The number with the given bits.
    pub fn from_bits(bits: u64) -> (made: Float)
        ensures
            made.bits == bits,
    {
        Float { bits }
    }

    /// The bits of the number.
    pub fn to_bits(&self) -> (bits: u64)
        ensures
            bits == self.bits,
    {
        self.bits
    }

    fn magnitude_bits(&self) -> (m: u64)
        ensures
            m == self.magnitude(),
            m < SIGN_BIT,
    {
        if self.bits >= SIGN_BIT {
            self.bits - SIGN_BIT
        } else {
            self.bits
        }
    }

    /// Not a number.
    pub fn is_nan(&self) -> (nan: bool)
        ensures
            nan == self.nan(),
    {
        self.magnitude_bits() > INFINITY_MAGNITUDE
    }

    /// Neither a NaN nor an infinity.
    pub fn is_finite(&self) -> (finite: bool)
        ensures
            finite == self.finite(),
    {
        self.magnitude_bits() < INFINITY_MAGNITUDE
    }

    fn order(&self) -> (at: i128)
        ensures
            at == self.rank(),
    {
        let m: u64 = self.magnitude_bits();
        if self.bits >= SIGN_BIT {
            -(m as i128)
        } else {
            m as i128
        }
    }

    /// Numeric equality: false with a NaN on either side, true of the two zeros.
    pub fn equals(&self, other: &Float) -> (same: bool)
        ensures
            same == self.same(*other),
    {
        !self.is_nan() && !other.is_nan() && self.order() == other.order()
    }

    /// Numeric `<`: false with a NaN on either side.
    pub fn less_than(&self, other: &Float) -> (below: bool)
        ensures
            below == self.below(*other),
    {
        !self.is_nan() && !other.is_nan() && self.order() < other.order()
    }

    /// Numeric `>`: false with a NaN on either side.
    pub fn greater_than(&self, other: &Float) -> (above: bool)
        ensures
            above == other.below(*self),
    {
        !self.is_nan() && !other.is_nan() && other.order() < self.order()
    }
}

} // verus!
