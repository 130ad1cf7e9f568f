//! Double-precision numbers as bit patterns, with their order.

use vstd::prelude::*;

verus! {

/// The sign bit of a binary64 pattern.
pub const SIGN_BIT: u64 = 0x8000_0000_0000_0000;

/// The pattern of positive infinity: every exponent bit set, no fraction bit.
pub const INFINITY_BITS: u64 = 0x7FF0_0000_0000_0000;

/// The pattern of `0.0`.
pub const ZERO_BITS: u64 = 0x0000_0000_0000_0000;

/// The pattern of `1.0`.
pub const ONE_BITS: u64 = 0x3FF0_0000_0000_0000;

/// A double-precision number, held as its IEEE-754 binary64 bit pattern.
#[derive(Clone, Copy, Debug)]
pub struct Double {
    pub bits: u64,
}

impl Double {
    /// The pattern with the sign bit cleared.
    pub open spec fn magnitude(self) -> int {
        if self.bits >= SIGN_BIT {
            self.bits - SIGN_BIT
        } else {
            self.bits as int
        }
    }

    /// Whether the sign bit is set.
    pub open spec fn sign_set(self) -> bool {
        self.bits >= SIGN_BIT
    }

    /// Not a number: exponent all ones and a non-zero fraction.
    pub open spec fn nan(self) -> bool {
        self.magnitude() > INFINITY_BITS
    }

    /// Neither infinite nor NaN.
    pub open spec fn finite(self) -> bool {
        self.magnitude() < INFINITY_BITS
    }

    /// An integer that orders the numbers as their values do: for two
    /// patterns that are not NaN, the first is the smaller number exactly
    /// when its key is the smaller integer. Both zeros have key 0.
    pub open spec fn key(self) -> int {
        if self.sign_set() {
            -self.magnitude()
        } else {
            self.magnitude()
        }
    }

    /// `self < other` as numbers; false when either is NaN.
    pub open spec fn lt_spec(self, other: Double) -> bool {
        !self.nan() && !other.nan() && self.key() < other.key()
    }

    /// `self <= other` as numbers; false when either is NaN.
    pub open spec fn le_spec(self, other: Double) -> bool {
        !self.nan() && !other.nan() && self.key() <= other.key()
    }

    /// The number `0.0`.
    pub open spec fn zero_spec() -> Double {
        Double { bits: ZERO_BITS }
    }

    /// The number `1.0`.
    pub open spec fn one_spec() -> Double {
        Double { bits: ONE_BITS }
    }

    /// Strictly positive as a number (positive infinity included).
    pub open spec fn positive(self) -> bool {
        Double::zero_spec().lt_spec(self)
    }

    /// The larger of two numbers, where a NaN gives way to the other.
    pub open spec fn max_spec(self, other: Double) -> Double {
        if self.nan() {
            other
        } else if other.nan() {
            self
        } else if self.key() < other.key() {
            other
        } else {
            self
        }
    }

    /// `self` held between `lo` and `hi`; a NaN stays as it is.
    pub open spec fn clamp_spec(self, lo: Double, hi: Double) -> Double {
        if self.lt_spec(lo) {
            lo
        } else if hi.lt_spec(self) {
            hi
        } else {
            self
        }
    }

    /// The number with its sign bit cleared.
    pub open spec fn abs_spec(self) -> Double {
        Double { bits: self.magnitude() as u64 }
    }

    /// The number with its sign bit flipped.
    pub open spec fn neg_spec(self) -> Double {
        if self.sign_set() {
            Double { bits: self.magnitude() as u64 }
        } else {
            Double { bits: (self.bits + SIGN_BIT) as u64 }
        }
    }

    /// `self` where it is a finite number at or above `floor`, else `floor`.
    pub open spec fn floored_at(self, floor: Double) -> Double {
        if !self.finite() || self.lt_spec(floor) {
            floor
        } else {
            self
        }
    }

    /// The number with the given bit pattern.
    pub fn from_bits(bits: u64) -> (r: Double)
        ensures
            r.bits == bits,
    {
        Double { bits }
    }

    /// The bit pattern of the number.
    pub fn to_bits(self) -> (bits: u64)
        ensures
            bits == self.bits,
    {
        self.bits
    }

    /// The number `0.0`.
    pub fn zero() -> (r: Double)
        ensures
            r == Double::zero_spec(),
    {
        Double { bits: ZERO_BITS }
    }

    /// The number `1.0`.
    pub fn one() -> (r: Double)
        ensures
            r == Double::one_spec(),
    {
        Double { bits: ONE_BITS }
    }

    fn magnitude_bits(self) -> (m: u64)
        ensures
            m == self.magnitude(),
            m < SIGN_BIT,
    {
        if self.bits >= SIGN_BIT {
            self.bits - SIGN_BIT
        } else {
            self.bits
        }
    }

    fn key_value(self) -> (k: i128)
        ensures
            k == self.key(),
    {
        let m: u64 = self.magnitude_bits();
        if self.bits >= SIGN_BIT {
            -(m as i128)
        } else {
            m as i128
        }
    }

    /// Whether this is no number.
    pub fn is_nan(self) -> (b: bool)
        ensures
            b == self.nan(),
    {
        self.magnitude_bits() > INFINITY_BITS
    }

    /// Whether this is a number and not infinite.
    pub fn is_finite(self) -> (b: bool)
        ensures
            b == self.finite(),
    {
        self.magnitude_bits() < INFINITY_BITS
    }

    /// `self < other` as numbers.
    pub fn lt(self, other: Double) -> (b: bool)
        ensures
            b == self.lt_spec(other),
    {
        !self.is_nan() && !other.is_nan() && self.key_value() < other.key_value()
    }

    /// `self <= other` as numbers.
    pub fn le(self, other: Double) -> (b: bool)
        ensures
            b == self.le_spec(other),
    {
        !self.is_nan() && !other.is_nan() && self.key_value() <= other.key_value()
    }

    /// `self > 0` as numbers.
    pub fn is_positive(self) -> (b: bool)
        ensures
            b == self.positive(),
    {
        Double::zero().lt(self)
    }

    /// The absolute value: the sign bit is cleared, of a NaN too.
    pub fn abs(self) -> (r: Double)
        ensures
            r == self.abs_spec(),
            r.magnitude() == self.magnitude(),
            !r.sign_set(),
            !self.nan() ==> Double::zero_spec().le_spec(r),
    {
        Double { bits: self.magnitude_bits() }
    }

    /// The negation: the sign bit is flipped, of a NaN too.
    pub fn neg(self) -> (r: Double)
        ensures
            r == self.neg_spec(),
            r.magnitude() == self.magnitude(),
            r.sign_set() != self.sign_set(),
            r.key() == -self.key(),
    {
        if self.bits >= SIGN_BIT {
            Double { bits: self.bits - SIGN_BIT }
        } else {
            Double { bits: self.bits + SIGN_BIT }
        }
    }

    /// Replaces a number that is not finite, or lies under the floor, by the floor.
    pub fn floor_at(self, floor: Double) -> (r: Double)
        ensures
            r == self.floored_at(floor),
            floor.finite() ==> r.finite() && floor.le_spec(r),
            floor.finite() && floor.positive() ==> r.positive(),
    {
        if !self.is_finite() || self.lt(floor) {
            floor
        } else {
            self
        }
    }

    /// The larger of the two; a NaN operand gives way to the other one.
    pub fn max(self, other: Double) -> (r: Double)
        ensures
            r == self.max_spec(other),
            !other.nan() ==> !r.nan() && other.le_spec(r),
    {
        if self.is_nan() {
            other
        } else if other.is_nan() {
            self
        } else if self.key_value() < other.key_value() {
            other
        } else {
            self
        }
    }

    /// Holds the number between two bounds. A NaN is handed back unchanged.
    pub fn clamp(self, lo: Double, hi: Double) -> (r: Double)
        requires
            lo.le_spec(hi),
        ensures
            r == self.clamp_spec(lo, hi),
            !self.nan() ==> lo.le_spec(r) && r.le_spec(hi),
            self.nan() ==> r == self,
    {
        if self.lt(lo) {
            lo
        } else if hi.lt(self) {
            hi
        } else {
            self
        }
    }
}

} // verus!
