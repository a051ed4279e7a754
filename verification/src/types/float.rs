//! IEEE 754 binary floating-point numbers, held by their bit patterns.
//!
//! A pattern is a sign bit, exponent bits and fraction bits, from the most
//! significant bit down. With the sign bit cleared it is the number's
//! magnitude; magnitudes are ordered as the numbers they stand for, infinity
//! is the magnitude whose exponent bits are all set and whose fraction is
//! zero, and every magnitude above that one is a NaN.
use vstd::prelude::*;

verus! {

/// The sign bit of a 32-bit pattern.
pub const SIGN_32: u32 = 0x8000_0000;

/// The magnitude of the 32-bit infinities.
pub const INFINITY_32: u32 = 0x7f80_0000;

/// The sign bit of a 64-bit pattern.
pub const SIGN_64: u64 = 0x8000_0000_0000_0000;

/// The magnitude of the 64-bit infinities.
pub const INFINITY_64: u64 = 0x7ff0_0000_0000_0000;

/// A 32-bit IEEE 754 number. `==` on it compares bit patterns.
#[derive(Clone, Copy, Debug, PartialEq, Eq, Structural)]
pub struct Float32 {
    pub bits: u32,
}

/// A 64-bit IEEE 754 number. `==` on it compares bit patterns.
#[derive(Clone, Copy, Debug, PartialEq, Eq, Structural)]
pub struct Float64 {
    pub bits: u64,
}

impl Float32 {
    /// Whether the sign bit is set.
    pub open spec fn negative(self) -> bool {
        self.bits >= SIGN_32
    }

    /// The pattern with the sign bit cleared.
    pub open spec fn magnitude(self) -> nat {
        if self.bits >= SIGN_32 {
            (self.bits - SIGN_32) as nat
        } else {
            self.bits as nat
        }
    }

    pub open spec fn nan(self) -> bool {
        self.magnitude() > INFINITY_32
    }

    pub open spec fn infinite(self) -> bool {
        self.magnitude() == INFINITY_32
    }

    pub open spec fn finite(self) -> bool {
        self.magnitude() < INFINITY_32
    }

    /// The place of the number among all numbers of its type, counted in
    /// representable steps from zero: negative numbers below, both zeros at 0.
    /// It has no meaning for a NaN.
    pub open spec fn steps(self) -> int {
        if self.negative() {
            -(self.magnitude() as int)
        } else {
            self.magnitude() as int
        }
    }

    /// `self <= other` as IEEE 754 orders numbers: false where either is a
    /// NaN, and the two zeros are equal.
    pub open spec fn le(self, other: Float32) -> bool {
        !self.nan() && !other.nan() && self.steps() <= other.steps()
    }

    /// `self == other` as IEEE 754 compares numbers: false where either is a
    /// NaN, and the two zeros are equal.
    pub open spec fn same(self, other: Float32) -> bool {
        !self.nan() && !other.nan() && self.steps() == other.steps()
    }

    pub fn from_bits(bits: u32) -> (r: Float32)
        ensures
            r.bits == bits,
    {
        Float32 { bits }
    }

    pub fn to_bits(self) -> (r: u32)
        ensures
            r == self.bits,
    {
        self.bits
    }

    /// The pattern with the sign bit cleared.
    pub fn abs_bits(self) -> (r: u32)
        ensures
            r == self.magnitude(),
    {
        if self.bits >= SIGN_32 {
            self.bits - SIGN_32
        } else {
            self.bits
        }
    }
}

impl Float64 {
    /// Whether the sign bit is set.
    pub open spec fn negative(self) -> bool {
        self.bits >= SIGN_64
    }

    /// The pattern with the sign bit cleared.
    pub open spec fn magnitude(self) -> nat {
        if self.bits >= SIGN_64 {
            (self.bits - SIGN_64) as nat
        } else {
            self.bits as nat
        }
    }

    pub open spec fn nan(self) -> bool {
        self.magnitude() > INFINITY_64
    }

    pub open spec fn infinite(self) -> bool {
        self.magnitude() == INFINITY_64
    }

    pub open spec fn finite(self) -> bool {
        self.magnitude() < INFINITY_64
    }

    /// The place of the number among all numbers of its type, counted in
    /// representable steps from zero: negative numbers below, both zeros at 0.
    /// It has no meaning for a NaN.
    pub open spec fn steps(self) -> int {
        if self.negative() {
            -(self.magnitude() as int)
        } else {
            self.magnitude() as int
        }
    }

    /// `self <= other` as IEEE 754 orders numbers: false where either is a
    /// NaN, and the two zeros are equal.
    pub open spec fn le(self, other: Float64) -> bool {
        !self.nan() && !other.nan() && self.steps() <= other.steps()
    }

    /// `self == other` as IEEE 754 compares numbers: false where either is a
    /// NaN, and the two zeros are equal.
    pub open spec fn same(self, other: Float64) -> bool {
        !self.nan() && !other.nan() && self.steps() == other.steps()
    }

    pub fn from_bits(bits: u64) -> (r: Float64)
        ensures
            r.bits == bits,
    {
        Float64 { bits }
    }

    pub fn to_bits(self) -> (r: u64)
        ensures
            r == self.bits,
    {
        self.bits
    }

    /// The pattern with the sign bit cleared.
    pub fn abs_bits(self) -> (r: u64)
        ensures
            r == self.magnitude(),
    {
        if self.bits >= SIGN_64 {
            self.bits - SIGN_64
        } else {
            self.bits
        }
    }
}

} // verus!
