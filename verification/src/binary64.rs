//! Double-precision values as IEEE 754 binary64 bit patterns.
//!
//! A pattern has one sign bit, eleven exponent bits and fifty-two fraction
//! bits. With the sign bit cleared, the patterns of the numbers (zero, the
//! subnormal and normal values, infinity) are ordered as integers exactly as
//! the magnitudes they encode; every larger pattern is a NaN. The comparisons
//! below are the IEEE 754 ones: a NaN compares false with everything, and the
//! two zeros are equal.

use vstd::prelude::*;

verus! {

/// The pattern whose only set bit is the sign bit (negative zero).
pub const SIGN_BIT: u64 = 0x8000_0000_0000_0000;

/// The pattern of positive infinity: the largest magnitude that is a number.
pub const INFINITY_BITS: u64 = 0x7FF0_0000_0000_0000;

/// A double-precision value, held as its bit pattern.
#[derive(Clone, Copy, Debug)]
pub struct Binary64 {
    pub bits: u64,
}

impl Binary64 {
    /// The pattern with the sign bit cleared: the pattern of the absolute value.
    pub open spec fn magnitude(self) -> int {
        if self.bits >= SIGN_BIT {
            self.bits - SIGN_BIT
        } else {
            self.bits as int
        }
    }

    /// Whether the sign bit is clear. It is clear for `+0`, and it may be
    /// clear or set for a NaN.
    pub open spec fn spec_is_sign_positive(self) -> bool {
        self.bits < SIGN_BIT
    }

    /// Whether the pattern encodes no number.
    pub open spec fn spec_is_nan(self) -> bool {
        self.magnitude() > INFINITY_BITS
    }

    /// Position of a number on the real line, up to a monotonic rescaling:
    /// for two numbers `a` and `b`, `a < b` exactly when
    /// `a.ordinal() < b.ordinal()`. Both zeros have ordinal 0.
    pub open spec fn ordinal(self) -> int {
        if self.spec_is_sign_positive() {
            self.magnitude()
        } else {
            -self.magnitude()
        }
    }

    /// The pattern of the absolute value: the same pattern with a clear sign bit.
    pub open spec fn spec_abs(self) -> Binary64 {
        Binary64 { bits: self.magnitude() as u64 }
    }

    /// IEEE 754 `<`.
    pub open spec fn spec_lt(self, other: Binary64) -> bool {
        !self.spec_is_nan() && !other.spec_is_nan() && self.ordinal() < other.ordinal()
    }

    /// IEEE 754 `<=`.
    pub open spec fn spec_le(self, other: Binary64) -> bool {
        !self.spec_is_nan() && !other.spec_is_nan() && self.ordinal() <= other.ordinal()
    }

    /// Whether the sign bit is clear.
    #[verifier::when_used_as_spec(spec_is_sign_positive)]
    pub fn is_sign_positive(self) -> (positive: bool)
        ensures
            positive == self.spec_is_sign_positive(),
    {
        self.bits < SIGN_BIT
    }

    /// Whether the value is no number.
    #[verifier::when_used_as_spec(spec_is_nan)]
    pub fn is_nan(self) -> (nan: bool)
        ensures
            nan == self.spec_is_nan(),
    {
        self.abs().bits > INFINITY_BITS
    }

    /// The absolute value. That of a NaN is a NaN.
    #[verifier::when_used_as_spec(spec_abs)]
    pub fn abs(self) -> (value: Binary64)
        ensures
            value == self.spec_abs(),
    {
        if self.bits >= SIGN_BIT {
            Binary64 { bits: self.bits - SIGN_BIT }
        } else {
            self
        }
    }

    /// Whether both values are numbers and `self` is the smaller one.
    #[verifier::when_used_as_spec(spec_lt)]
    pub fn lt(self, other: Binary64) -> (less: bool)
        ensures
            less == self.spec_lt(other),
    {
        if self.is_nan() || other.is_nan() {
            return false;
        }
        let a: u64 = self.abs().bits;
        let b: u64 = other.abs().bits;
        if self.is_sign_positive() {
            other.is_sign_positive() && a < b
        } else if other.is_sign_positive() {
            a > 0 || b > 0
        } else {
            a > b
        }
    }

    /// Whether both values are numbers and `self` is not the larger one.
    #[verifier::when_used_as_spec(spec_le)]
    pub fn le(self, other: Binary64) -> (at_most: bool)
        ensures
            at_most == self.spec_le(other),
    {
        if self.is_nan() || other.is_nan() {
            return false;
        }
        let a: u64 = self.abs().bits;
        let b: u64 = other.abs().bits;
        if self.is_sign_positive() {
            if other.is_sign_positive() {
                a <= b
            } else {
                a == 0 && b == 0
            }
        } else if other.is_sign_positive() {
            true
        } else {
            a >= b
        }
    }
}

} // verus!
