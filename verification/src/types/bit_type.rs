//! What every numeric type of a scan offers.
use vstd::prelude::*;
use crate::common::DataType;
use crate::types::endian::{FromBigEndian, FromLittleEndian};
use crate::types::float::{Float32, Float64, INFINITY_32, INFINITY_64, SIGN_32, SIGN_64};

verus! {

/// A numeric type that a scan can look for.
///
/// The spec functions say what the type's values mean; each method computes
/// the spec function it is named after.
pub trait BitType: Copy + FromLittleEndian + FromBigEndian {
    /// The tag of the type.
    spec fn spec_data_type() -> DataType;

    /// The number of bytes that hold one value.
    spec fn spec_width() -> nat;

    /// Whether the two are the same number.
    spec fn spec_numeric_eq(self, other: Self) -> bool;

    /// Whether `self` is no greater than `other`.
    spec fn spec_at_most(self, other: Self) -> bool;

    /// Whether `self` is a number with a finite value.
    spec fn spec_is_finite(self) -> bool;

    fn data_type() -> (r: DataType)
        ensures
            r == Self::spec_data_type(),
    ;

    fn width() -> (r: usize)
        ensures
            r == Self::spec_width(),
    ;

    fn numeric_eq(&self, other: &Self) -> (r: bool)
        ensures
            r == self.spec_numeric_eq(*other),
    ;

    fn at_most(&self, other: &Self) -> (r: bool)
        ensures
            r == self.spec_at_most(*other),
    ;

    fn is_finite(&self) -> (r: bool)
        ensures
            r == self.spec_is_finite(),
    ;

    /// A value takes at least one byte, and as many in either byte order.
    proof fn lemma_widths()
        ensures
            0 < Self::spec_width() <= usize::MAX,
            Self::spec_width() == <Self as FromLittleEndian>::le_width(),
            Self::spec_width() == <Self as FromBigEndian>::be_width(),
    ;
}

impl BitType for Float32 {
    open spec fn spec_data_type() -> DataType {
        DataType::F32
    }

    open spec fn spec_width() -> nat {
        4
    }

    open spec fn spec_numeric_eq(self, other: Float32) -> bool {
        self.same(other)
    }

    open spec fn spec_at_most(self, other: Float32) -> bool {
        self.le(other)
    }

    open spec fn spec_is_finite(self) -> bool {
        self.finite()
    }

    fn data_type() -> (r: DataType) {
        DataType::F32
    }

    fn width() -> (r: usize) {
        4
    }

    fn numeric_eq(&self, other: &Float32) -> (r: bool) {
        let a: u32 = self.abs_bits();
        let b: u32 = other.abs_bits();
        a <= INFINITY_32 && b <= INFINITY_32 && (self.bits == other.bits || (a == 0 && b == 0))
    }

    fn at_most(&self, other: &Float32) -> (r: bool) {
        let a: u32 = self.abs_bits();
        let b: u32 = other.abs_bits();
        proof {
            assert(self.negative() == (self.bits != a));
            assert(other.negative() == (other.bits != b));
            assert(self.steps() == if self.negative() { -(a as int) } else { a as int });
            assert(other.steps() == if other.negative() { -(b as int) } else { b as int });
            assert(self.spec_at_most(*other) == self.le(*other));
        }
        if a > INFINITY_32 || b > INFINITY_32 {
            false
        } else if self.bits != a {
            // `self` is negative: below every positive number, and below
            // the negative numbers of smaller magnitude.
            other.bits == b || b <= a
        } else {
            (other.bits == b && a <= b) || (a == 0 && b == 0)
        }
    }

    fn is_finite(&self) -> (r: bool) {
        self.abs_bits() < INFINITY_32
    }

    proof fn lemma_widths() {
    }
}

impl BitType for Float64 {
    open spec fn spec_data_type() -> DataType {
        DataType::F64
    }

    open spec fn spec_width() -> nat {
        8
    }

    open spec fn spec_numeric_eq(self, other: Float64) -> bool {
        self.same(other)
    }

    open spec fn spec_at_most(self, other: Float64) -> bool {
        self.le(other)
    }

    open spec fn spec_is_finite(self) -> bool {
        self.finite()
    }

    fn data_type() -> (r: DataType) {
        DataType::F64
    }

    fn width() -> (r: usize) {
        8
    }

    fn numeric_eq(&self, other: &Float64) -> (r: bool) {
        let a: u64 = self.abs_bits();
        let b: u64 = other.abs_bits();
        a <= INFINITY_64 && b <= INFINITY_64 && (self.bits == other.bits || (a == 0 && b == 0))
    }

    fn at_most(&self, other: &Float64) -> (r: bool) {
        let a: u64 = self.abs_bits();
        let b: u64 = other.abs_bits();
        proof {
            assert(self.negative() == (self.bits != a));
            assert(other.negative() == (other.bits != b));
            assert(self.steps() == if self.negative() { -(a as int) } else { a as int });
            assert(other.steps() == if other.negative() { -(b as int) } else { b as int });
            assert(self.spec_at_most(*other) == self.le(*other));
        }
        if a > INFINITY_64 || b > INFINITY_64 {
            false
        } else if self.bits != a {
            // `self` is negative: below every positive number, and below
            // the negative numbers of smaller magnitude.
            other.bits == b || b <= a
        } else {
            (other.bits == b && a <= b) || (a == 0 && b == 0)
        }
    }

    fn is_finite(&self) -> (r: bool) {
        self.abs_bits() < INFINITY_64
    }

    proof fn lemma_widths() {
    }
}

impl BitType for i8 {
    open spec fn spec_data_type() -> DataType {
        DataType::I8
    }

    open spec fn spec_width() -> nat {
        1
    }

    open spec fn spec_numeric_eq(self, other: i8) -> bool {
        self == other
    }

    open spec fn spec_at_most(self, other: i8) -> bool {
        self <= other
    }

    open spec fn spec_is_finite(self) -> bool {
        true
    }

    fn data_type() -> (r: DataType) {
        DataType::I8
    }

    fn width() -> (r: usize) {
        1
    }

    fn numeric_eq(&self, other: &i8) -> (r: bool) {
        *self == *other
    }

    fn at_most(&self, other: &i8) -> (r: bool) {
        *self <= *other
    }

    fn is_finite(&self) -> (r: bool) {
        true
    }

    proof fn lemma_widths() {
    }
}

impl BitType for i16 {
    open spec fn spec_data_type() -> DataType {
        DataType::I16
    }

    open spec fn spec_width() -> nat {
        2
    }

    open spec fn spec_numeric_eq(self, other: i16) -> bool {
        self == other
    }

    open spec fn spec_at_most(self, other: i16) -> bool {
        self <= other
    }

    open spec fn spec_is_finite(self) -> bool {
        true
    }

    fn data_type() -> (r: DataType) {
        DataType::I16
    }

    fn width() -> (r: usize) {
        2
    }

    fn numeric_eq(&self, other: &i16) -> (r: bool) {
        *self == *other
    }

    fn at_most(&self, other: &i16) -> (r: bool) {
        *self <= *other
    }

    fn is_finite(&self) -> (r: bool) {
        true
    }

    proof fn lemma_widths() {
    }
}

impl BitType for i32 {
    open spec fn spec_data_type() -> DataType {
        DataType::I32
    }

    open spec fn spec_width() -> nat {
        4
    }

    open spec fn spec_numeric_eq(self, other: i32) -> bool {
        self == other
    }

    open spec fn spec_at_most(self, other: i32) -> bool {
        self <= other
    }

    open spec fn spec_is_finite(self) -> bool {
        true
    }

    fn data_type() -> (r: DataType) {
        DataType::I32
    }

    fn width() -> (r: usize) {
        4
    }

    fn numeric_eq(&self, other: &i32) -> (r: bool) {
        *self == *other
    }

    fn at_most(&self, other: &i32) -> (r: bool) {
        *self <= *other
    }

    fn is_finite(&self) -> (r: bool) {
        true
    }

    proof fn lemma_widths() {
    }
}

impl BitType for i64 {
    open spec fn spec_data_type() -> DataType {
        DataType::I64
    }

    open spec fn spec_width() -> nat {
        8
    }

    open spec fn spec_numeric_eq(self, other: i64) -> bool {
        self == other
    }

    open spec fn spec_at_most(self, other: i64) -> bool {
        self <= other
    }

    open spec fn spec_is_finite(self) -> bool {
        true
    }

    fn data_type() -> (r: DataType) {
        DataType::I64
    }

    fn width() -> (r: usize) {
        8
    }

    fn numeric_eq(&self, other: &i64) -> (r: bool) {
        *self == *other
    }

    fn at_most(&self, other: &i64) -> (r: bool) {
        *self <= *other
    }

    fn is_finite(&self) -> (r: bool) {
        true
    }

    proof fn lemma_widths() {
    }
}

impl BitType for i128 {
    open spec fn spec_data_type() -> DataType {
        DataType::I128
    }

    open spec fn spec_width() -> nat {
        16
    }

    open spec fn spec_numeric_eq(self, other: i128) -> bool {
        self == other
    }

    open spec fn spec_at_most(self, other: i128) -> bool {
        self <= other
    }

    open spec fn spec_is_finite(self) -> bool {
        true
    }

    fn data_type() -> (r: DataType) {
        DataType::I128
    }

    fn width() -> (r: usize) {
        16
    }

    fn numeric_eq(&self, other: &i128) -> (r: bool) {
        *self == *other
    }

    fn at_most(&self, other: &i128) -> (r: bool) {
        *self <= *other
    }

    fn is_finite(&self) -> (r: bool) {
        true
    }

    proof fn lemma_widths() {
    }
}

impl BitType for u8 {
    open spec fn spec_data_type() -> DataType {
        DataType::U8
    }

    open spec fn spec_width() -> nat {
        1
    }

    open spec fn spec_numeric_eq(self, other: u8) -> bool {
        self == other
    }

    open spec fn spec_at_most(self, other: u8) -> bool {
        self <= other
    }

    open spec fn spec_is_finite(self) -> bool {
        true
    }

    fn data_type() -> (r: DataType) {
        DataType::U8
    }

    fn width() -> (r: usize) {
        1
    }

    fn numeric_eq(&self, other: &u8) -> (r: bool) {
        *self == *other
    }

    fn at_most(&self, other: &u8) -> (r: bool) {
        *self <= *other
    }

    fn is_finite(&self) -> (r: bool) {
        true
    }

    proof fn lemma_widths() {
    }
}

impl BitType for u16 {
    open spec fn spec_data_type() -> DataType {
        DataType::U16
    }

    open spec fn spec_width() -> nat {
        2
    }

    open spec fn spec_numeric_eq(self, other: u16) -> bool {
        self == other
    }

    open spec fn spec_at_most(self, other: u16) -> bool {
        self <= other
    }

    open spec fn spec_is_finite(self) -> bool {
        true
    }

    fn data_type() -> (r: DataType) {
        DataType::U16
    }

    fn width() -> (r: usize) {
        2
    }

    fn numeric_eq(&self, other: &u16) -> (r: bool) {
        *self == *other
    }

    fn at_most(&self, other: &u16) -> (r: bool) {
        *self <= *other
    }

    fn is_finite(&self) -> (r: bool) {
        true
    }

    proof fn lemma_widths() {
    }
}

impl BitType for u32 {
    open spec fn spec_data_type() -> DataType {
        DataType::U32
    }

    open spec fn spec_width() -> nat {
        4
    }

    open spec fn spec_numeric_eq(self, other: u32) -> bool {
        self == other
    }

    open spec fn spec_at_most(self, other: u32) -> bool {
        self <= other
    }

    open spec fn spec_is_finite(self) -> bool {
        true
    }

    fn data_type() -> (r: DataType) {
        DataType::U32
    }

    fn width() -> (r: usize) {
        4
    }

    fn numeric_eq(&self, other: &u32) -> (r: bool) {
        *self == *other
    }

    fn at_most(&self, other: &u32) -> (r: bool) {
        *self <= *other
    }

    fn is_finite(&self) -> (r: bool) {
        true
    }

    proof fn lemma_widths() {
    }
}

impl BitType for u64 {
    open spec fn spec_data_type() -> DataType {
        DataType::U64
    }

    open spec fn spec_width() -> nat {
        8
    }

    open spec fn spec_numeric_eq(self, other: u64) -> bool {
        self == other
    }

    open spec fn spec_at_most(self, other: u64) -> bool {
        self <= other
    }

    open spec fn spec_is_finite(self) -> bool {
        true
    }

    fn data_type() -> (r: DataType) {
        DataType::U64
    }

    fn width() -> (r: usize) {
        8
    }

    fn numeric_eq(&self, other: &u64) -> (r: bool) {
        *self == *other
    }

    fn at_most(&self, other: &u64) -> (r: bool) {
        *self <= *other
    }

    fn is_finite(&self) -> (r: bool) {
        true
    }

    proof fn lemma_widths() {
    }
}

impl BitType for u128 {
    open spec fn spec_data_type() -> DataType {
        DataType::U128
    }

    open spec fn spec_width() -> nat {
        16
    }

    open spec fn spec_numeric_eq(self, other: u128) -> bool {
        self == other
    }

    open spec fn spec_at_most(self, other: u128) -> bool {
        self <= other
    }

    open spec fn spec_is_finite(self) -> bool {
        true
    }

    fn data_type() -> (r: DataType) {
        DataType::U128
    }

    fn width() -> (r: usize) {
        16
    }

    fn numeric_eq(&self, other: &u128) -> (r: bool) {
        *self == *other
    }

    fn at_most(&self, other: &u128) -> (r: bool) {
        *self <= *other
    }

    fn is_finite(&self) -> (r: bool) {
        true
    }

    proof fn lemma_widths() {
    }
}

/// A floating-point type of a scan.
pub trait Float: BitType {
    spec fn spec_is_nan(self) -> bool;

    spec fn spec_is_pos_infinity(self) -> bool;

    spec fn spec_is_neg_infinity(self) -> bool;

    /// The place of the number among the numbers of its type, in
    /// representable steps from zero. It has no meaning for a NaN.
    spec fn spec_ordinal(self) -> int;

    fn is_nan(self) -> (r: bool)
        ensures
            r == self.spec_is_nan(),
    ;

    fn is_pos_infinity(self) -> (r: bool)
        ensures
            r == self.spec_is_pos_infinity(),
    ;

    fn is_neg_infinity(self) -> (r: bool)
        ensures
            r == self.spec_is_neg_infinity(),
    ;

    fn ordinal(self) -> (r: i128)
        ensures
            r == self.spec_ordinal(),
            -0x1_0000_0000_0000_0000 < r < 0x1_0000_0000_0000_0000,
    ;
}

impl Float for Float32 {
    open spec fn spec_is_nan(self) -> bool {
        self.nan()
    }

    open spec fn spec_is_pos_infinity(self) -> bool {
        self.infinite() && !self.negative()
    }

    open spec fn spec_is_neg_infinity(self) -> bool {
        self.infinite() && self.negative()
    }

    open spec fn spec_ordinal(self) -> int {
        self.steps()
    }

    fn is_nan(self) -> (r: bool) {
        self.abs_bits() > INFINITY_32
    }

    fn is_pos_infinity(self) -> (r: bool) {
        self.bits == INFINITY_32
    }

    fn is_neg_infinity(self) -> (r: bool) {
        self.bits >= SIGN_32 && self.bits - SIGN_32 == INFINITY_32
    }

    fn ordinal(self) -> (r: i128) {
        let magnitude: u32 = self.abs_bits();
        if self.bits >= SIGN_32 {
            -(magnitude as i128)
        } else {
            magnitude as i128
        }
    }
}

impl Float for Float64 {
    open spec fn spec_is_nan(self) -> bool {
        self.nan()
    }

    open spec fn spec_is_pos_infinity(self) -> bool {
        self.infinite() && !self.negative()
    }

    open spec fn spec_is_neg_infinity(self) -> bool {
        self.infinite() && self.negative()
    }

    open spec fn spec_ordinal(self) -> int {
        self.steps()
    }

    fn is_nan(self) -> (r: bool) {
        self.abs_bits() > INFINITY_64
    }

    fn is_pos_infinity(self) -> (r: bool) {
        self.bits == INFINITY_64
    }

    fn is_neg_infinity(self) -> (r: bool) {
        self.bits >= SIGN_64 && self.bits - SIGN_64 == INFINITY_64
    }

    fn ordinal(self) -> (r: i128) {
        let magnitude: u64 = self.abs_bits();
        if self.bits >= SIGN_64 {
            -(magnitude as i128)
        } else {
            magnitude as i128
        }
    }
}

} // verus!
