//! Equality of numbers: exact for integers, tolerant for floating point.
use vstd::prelude::*;
use crate::types::bit_type::{BitType, Float};
use crate::types::float::{Float32, Float64};

verus! {

/// The number of representable steps by which two floating-point numbers may
/// differ and still count as equal.
pub const MAX_ULPS: u32 = 4;

/// Equality as a literal filter understands it.
pub trait Compare: BitType {
    spec fn spec_equal(self, other: Self) -> bool;

    fn equal(&self, other: &Self) -> (r: bool)
        ensures
            r == self.spec_equal(*other),
    ;
}

/// Exact equality of two numbers.
pub fn numeric_equal<T: BitType>(first: &T, second: &T) -> (r: bool)
    ensures
        r == first.spec_numeric_eq(*second),
{
    first.numeric_eq(second)
}

/// Tolerant equality of two floating-point numbers: two NaNs are equal, a NaN
/// equals nothing else, and two numbers are equal where they lie at most
/// [`MAX_ULPS`] representable steps apart.
pub open spec fn spec_float_equal<T: Float>(first: T, second: T) -> bool {
    if first.spec_is_nan() || second.spec_is_nan() {
        first.spec_is_nan() && second.spec_is_nan()
    } else {
        -(MAX_ULPS as int) <= first.spec_ordinal() - second.spec_ordinal() <= MAX_ULPS as int
    }
}

/// Tolerant equality of two floating-point numbers.
pub fn float_equal<T: Float>(first: &T, second: &T) -> (r: bool)
    ensures
        r == spec_float_equal(*first, *second),
{
    if first.is_nan() && second.is_nan() {
        return true;
    }
    if first.is_nan() || second.is_nan() {
        return false;
    }
    let a: i128 = first.ordinal();
    let b: i128 = second.ordinal();
    if a <= b {
        b - a <= MAX_ULPS as i128
    } else {
        a - b <= MAX_ULPS as i128
    }
}

/// Two NaNs are equal, whatever their signs and the rest of their bits;
/// a NaN and a number are not.
pub proof fn lemma_nan_equals_nan_alone<T: Float>(first: T, second: T)
    requires
        first.spec_is_nan(),
    ensures
        spec_float_equal(first, second) == second.spec_is_nan(),
        spec_float_equal(second, first) == second.spec_is_nan(),
{
}

/// An infinity equals itself and not the other one, at either width.
pub proof fn lemma_infinities()
    ensures
        forall|a: Float32, b: Float32|
            a.spec_is_pos_infinity() && b.spec_is_pos_infinity() ==> #[trigger] spec_float_equal(
                a,
                b,
            ),
        forall|a: Float32, b: Float32|
            a.spec_is_neg_infinity() && b.spec_is_neg_infinity() ==> #[trigger] spec_float_equal(
                a,
                b,
            ),
        forall|a: Float32, b: Float32|
            a.spec_is_pos_infinity() && b.spec_is_neg_infinity() ==> !#[trigger] spec_float_equal(
                a,
                b,
            ) && !spec_float_equal(b, a),
        forall|a: Float64, b: Float64|
            a.spec_is_pos_infinity() && b.spec_is_pos_infinity() ==> #[trigger] spec_float_equal(
                a,
                b,
            ),
        forall|a: Float64, b: Float64|
            a.spec_is_neg_infinity() && b.spec_is_neg_infinity() ==> #[trigger] spec_float_equal(
                a,
                b,
            ),
        forall|a: Float64, b: Float64|
            a.spec_is_pos_infinity() && b.spec_is_neg_infinity() ==> !#[trigger] spec_float_equal(
                a,
                b,
            ) && !spec_float_equal(b, a),
{
}

/// Tolerant equality holds of a number and itself, and of two numbers
/// whichever comes first.
pub proof fn lemma_float_equal_reflexive_symmetric<T: Float>(first: T, second: T)
    ensures
        spec_float_equal(first, first),
        spec_float_equal(first, second) == spec_float_equal(second, first),
{
}

impl Compare for Float32 {
    open spec fn spec_equal(self, other: Float32) -> bool {
        spec_float_equal(self, other)
    }

    #[inline]
    fn equal(&self, other: &Float32) -> (r: bool) {
        float_equal(self, other)
    }
}

impl Compare for Float64 {
    open spec fn spec_equal(self, other: Float64) -> bool {
        spec_float_equal(self, other)
    }

    #[inline]
    fn equal(&self, other: &Float64) -> (r: bool) {
        float_equal(self, other)
    }
}

impl Compare for i8 {
    open spec fn spec_equal(self, other: i8) -> bool {
        self == other
    }

    #[inline]
    fn equal(&self, other: &i8) -> (r: bool) {
        numeric_equal(self, other)
    }
}

impl Compare for i16 {
    open spec fn spec_equal(self, other: i16) -> bool {
        self == other
    }

    #[inline]
    fn equal(&self, other: &i16) -> (r: bool) {
        numeric_equal(self, other)
    }
}

impl Compare for i32 {
    open spec fn spec_equal(self, other: i32) -> bool {
        self == other
    }

    #[inline]
    fn equal(&self, other: &i32) -> (r: bool) {
        numeric_equal(self, other)
    }
}

impl Compare for i64 {
    open spec fn spec_equal(self, other: i64) -> bool {
        self == other
    }

    #[inline]
    fn equal(&self, other: &i64) -> (r: bool) {
        numeric_equal(self, other)
    }
}

impl Compare for i128 {
    open spec fn spec_equal(self, other: i128) -> bool {
        self == other
    }

    #[inline]
    fn equal(&self, other: &i128) -> (r: bool) {
        numeric_equal(self, other)
    }
}

impl Compare for u8 {
    open spec fn spec_equal(self, other: u8) -> bool {
        self == other
    }

    #[inline]
    fn equal(&self, other: &u8) -> (r: bool) {
        numeric_equal(self, other)
    }
}

impl Compare for u16 {
    open spec fn spec_equal(self, other: u16) -> bool {
        self == other
    }

    #[inline]
    fn equal(&self, other: &u16) -> (r: bool) {
        numeric_equal(self, other)
    }
}

impl Compare for u32 {
    open spec fn spec_equal(self, other: u32) -> bool {
        self == other
    }

    #[inline]
    fn equal(&self, other: &u32) -> (r: bool) {
        numeric_equal(self, other)
    }
}

impl Compare for u64 {
    open spec fn spec_equal(self, other: u64) -> bool {
        self == other
    }

    #[inline]
    fn equal(&self, other: &u64) -> (r: bool) {
        numeric_equal(self, other)
    }
}

impl Compare for u128 {
    open spec fn spec_equal(self, other: u128) -> bool {
        self == other
    }

    #[inline]
    fn equal(&self, other: &u128) -> (r: bool) {
        numeric_equal(self, other)
    }
}

} // verus!
