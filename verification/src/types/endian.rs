//! Numbers out of bytes, in either byte order.
use vstd::prelude::*;
use crate::types::float::{Float32, Float64};

verus! {

/// The number that `bytes` spell in base 256, least significant byte first.
pub open spec fn le_nat(bytes: Seq<u8>) -> nat
    decreases bytes.len(),
{
    if bytes.len() == 0 {
        0
    } else {
        bytes[0] as nat + 256 * le_nat(bytes.drop_first())
    }
}

/// The number that `bytes` spell in base 256, most significant byte first.
pub open spec fn be_nat(bytes: Seq<u8>) -> nat
    decreases bytes.len(),
{
    if bytes.len() == 0 {
        0
    } else {
        256 * be_nat(bytes.drop_last()) + bytes.last() as nat
    }
}

/// 256 to the power `n`: the number of values that `n` bytes can spell.
pub open spec fn pow256(n: nat) -> nat
    decreases n,
{
    if n == 0 {
        1
    } else {
        256 * pow256((n - 1) as nat)
    }
}

/// The two's complement reading of `value`, a number of `width` bytes.
pub open spec fn signed_of(value: nat, width: nat) -> int {
    if 2 * value >= pow256(width) {
        value - pow256(width)
    } else {
        value as int
    }
}

/// The values of `pow256` at the widths of the numeric types.
pub proof fn lemma_pow256_widths()
    ensures
        pow256(1) == 0x100,
        pow256(2) == 0x1_0000,
        pow256(4) == 0x1_0000_0000,
        pow256(8) == 0x1_0000_0000_0000_0000,
        pow256(16) == 0x1_0000_0000_0000_0000_0000_0000_0000_0000,
{
    reveal_with_fuel(pow256, 17);
}

/// `pow256` never shrinks.
pub proof fn lemma_pow256_monotonic(a: nat, b: nat)
    requires
        a <= b,
    ensures
        0 < pow256(a) <= pow256(b),
    decreases b,
{
    if b == 0 {
    } else if a == b {
        lemma_pow256_monotonic((a - 1) as nat, (b - 1) as nat);
    } else {
        lemma_pow256_monotonic(a, (b - 1) as nat);
    }
}

/// Bytes spell a number below `pow256` of their count, least significant first.
pub proof fn lemma_le_nat_bound(bytes: Seq<u8>)
    ensures
        le_nat(bytes) < pow256(bytes.len()),
    decreases bytes.len(),
{
    if bytes.len() > 0 {
        lemma_le_nat_bound(bytes.drop_first());
    }
}

/// Bytes spell a number below `pow256` of their count, most significant first.
pub proof fn lemma_be_nat_bound(bytes: Seq<u8>)
    ensures
        be_nat(bytes) < pow256(bytes.len()),
    decreases bytes.len(),
{
    if bytes.len() > 0 {
        lemma_be_nat_bound(bytes.drop_last());
    }
}

/// The number that at most sixteen bytes spell, least significant first.
pub fn le_bytes_value(bytes: &[u8]) -> (r: u128)
    requires
        bytes@.len() <= 16,
    ensures
        r == le_nat(bytes@),
{
    let mut acc: u128 = 0;
    let mut i: usize = bytes.len();
    proof {
        assert(bytes@.skip(i as int) =~= Seq::<u8>::empty());
    }
    while i > 0
        invariant
            i <= bytes@.len() <= 16,
            acc == le_nat(bytes@.skip(i as int)),
        decreases i,
    {
        proof {
            let rest = bytes@.skip(i as int);
            let next = bytes@.skip(i - 1);
            assert(next.drop_first() =~= rest);
            lemma_le_nat_bound(rest);
            lemma_pow256_monotonic(rest.len(), 15);
            lemma_pow256_widths();
            reveal_with_fuel(pow256, 2);
            assert(pow256(16) == 256 * pow256(15));
        }
        i = i - 1;
        acc = acc * 256 + bytes[i] as u128;
    }
    proof {
        assert(bytes@.skip(0) =~= bytes@);
    }
    acc
}

/// The number that at most sixteen bytes spell, most significant first.
pub fn be_bytes_value(bytes: &[u8]) -> (r: u128)
    requires
        bytes@.len() <= 16,
    ensures
        r == be_nat(bytes@),
{
    let mut acc: u128 = 0;
    let mut i: usize = 0;
    proof {
        assert(bytes@.take(0) =~= Seq::<u8>::empty());
    }
    while i < bytes.len()
        invariant
            i <= bytes@.len() <= 16,
            acc == be_nat(bytes@.take(i as int)),
        decreases bytes@.len() - i,
    {
        proof {
            let done = bytes@.take(i as int);
            let next = bytes@.take(i + 1);
            assert(next.drop_last() =~= done);
            lemma_be_nat_bound(done);
            lemma_pow256_monotonic(done.len(), 15);
            lemma_pow256_widths();
            reveal_with_fuel(pow256, 2);
            assert(pow256(16) == 256 * pow256(15));
        }
        acc = acc * 256 + bytes[i] as u128;
        i = i + 1;
    }
    proof {
        assert(bytes@.take(bytes@.len() as int) =~= bytes@);
    }
    acc
}

/// The two's complement reading of a number of one byte.
fn to_i8(value: u128) -> (r: i8)
    requires
        value < 0x100,
    ensures
        r == signed_of(value as nat, 1),
{
    proof {
        lemma_pow256_widths();
    }
    if value >= 0x80 {
        (value as i16 - 0x100) as i8
    } else {
        value as i8
    }
}

/// The two's complement reading of a number of two bytes.
fn to_i16(value: u128) -> (r: i16)
    requires
        value < 0x1_0000,
    ensures
        r == signed_of(value as nat, 2),
{
    proof {
        lemma_pow256_widths();
    }
    if value >= 0x8000 {
        (value as i32 - 0x1_0000) as i16
    } else {
        value as i16
    }
}

/// The two's complement reading of a number of four bytes.
fn to_i32(value: u128) -> (r: i32)
    requires
        value < 0x1_0000_0000,
    ensures
        r == signed_of(value as nat, 4),
{
    proof {
        lemma_pow256_widths();
    }
    if value >= 0x8000_0000 {
        (value as i64 - 0x1_0000_0000) as i32
    } else {
        value as i32
    }
}

/// The two's complement reading of a number of eight bytes.
fn to_i64(value: u128) -> (r: i64)
    requires
        value < 0x1_0000_0000_0000_0000,
    ensures
        r == signed_of(value as nat, 8),
{
    proof {
        lemma_pow256_widths();
    }
    if value >= 0x8000_0000_0000_0000 {
        (value as i128 - 0x1_0000_0000_0000_0000) as i64
    } else {
        value as i64
    }
}

/// The two's complement reading of a number of sixteen bytes.
fn to_i128(value: u128) -> (r: i128)
    ensures
        r == signed_of(value as nat, 16),
{
    proof {
        lemma_pow256_widths();
    }
    if value >= 0x8000_0000_0000_0000_0000_0000_0000_0000 {
        (value - 0x8000_0000_0000_0000_0000_0000_0000_0000) as i128 + i128::MIN
    } else {
        value as i128
    }
}

/// A type whose values can be read from bytes that hold the least
/// significant byte first.
pub trait FromLittleEndian: Sized {
    /// The number of bytes that hold one value.
    spec fn le_width() -> nat;

    /// The value that `bytes` hold.
    spec fn le_decoded(bytes: Seq<u8>) -> Self;

    fn from_bytes(bytes: &[u8]) -> (r: Self)
        requires
            bytes@.len() == Self::le_width(),
        ensures
            r == Self::le_decoded(bytes@),
    ;
}

impl FromLittleEndian for Float64 {
    open spec fn le_width() -> nat {
        8
    }

    open spec fn le_decoded(bytes: Seq<u8>) -> Float64 {
        Float64 { bits: le_nat(bytes) as u64 }
    }

    fn from_bytes(bytes: &[u8]) -> (r: Float64) {
        let value: u128 = le_bytes_value(bytes);
        proof {
            lemma_le_nat_bound(bytes@);
            lemma_pow256_widths();
        }
        Float64::from_bits(value as u64)
    }
}

impl FromLittleEndian for Float32 {
    open spec fn le_width() -> nat {
        4
    }

    open spec fn le_decoded(bytes: Seq<u8>) -> Float32 {
        Float32 { bits: le_nat(bytes) as u32 }
    }

    fn from_bytes(bytes: &[u8]) -> (r: Float32) {
        let value: u128 = le_bytes_value(bytes);
        proof {
            lemma_le_nat_bound(bytes@);
            lemma_pow256_widths();
        }
        Float32::from_bits(value as u32)
    }
}

impl FromLittleEndian for i8 {
    open spec fn le_width() -> nat {
        1
    }

    open spec fn le_decoded(bytes: Seq<u8>) -> i8 {
        signed_of(le_nat(bytes), 1) as i8
    }

    fn from_bytes(bytes: &[u8]) -> (r: i8) {
        let value: u128 = le_bytes_value(bytes);
        proof {
            lemma_le_nat_bound(bytes@);
            lemma_pow256_widths();
        }
        to_i8(value)
    }
}

impl FromLittleEndian for i16 {
    open spec fn le_width() -> nat {
        2
    }

    open spec fn le_decoded(bytes: Seq<u8>) -> i16 {
        signed_of(le_nat(bytes), 2) as i16
    }

    fn from_bytes(bytes: &[u8]) -> (r: i16) {
        let value: u128 = le_bytes_value(bytes);
        proof {
            lemma_le_nat_bound(bytes@);
            lemma_pow256_widths();
        }
        to_i16(value)
    }
}

impl FromLittleEndian for i32 {
    open spec fn le_width() -> nat {
        4
    }

    open spec fn le_decoded(bytes: Seq<u8>) -> i32 {
        signed_of(le_nat(bytes), 4) as i32
    }

    fn from_bytes(bytes: &[u8]) -> (r: i32) {
        let value: u128 = le_bytes_value(bytes);
        proof {
            lemma_le_nat_bound(bytes@);
            lemma_pow256_widths();
        }
        to_i32(value)
    }
}

impl FromLittleEndian for i64 {
    open spec fn le_width() -> nat {
        8
    }

    open spec fn le_decoded(bytes: Seq<u8>) -> i64 {
        signed_of(le_nat(bytes), 8) as i64
    }

    fn from_bytes(bytes: &[u8]) -> (r: i64) {
        let value: u128 = le_bytes_value(bytes);
        proof {
            lemma_le_nat_bound(bytes@);
            lemma_pow256_widths();
        }
        to_i64(value)
    }
}

impl FromLittleEndian for i128 {
    open spec fn le_width() -> nat {
        16
    }

    open spec fn le_decoded(bytes: Seq<u8>) -> i128 {
        signed_of(le_nat(bytes), 16) as i128
    }

    fn from_bytes(bytes: &[u8]) -> (r: i128) {
        let value: u128 = le_bytes_value(bytes);
        proof {
            lemma_le_nat_bound(bytes@);
            lemma_pow256_widths();
        }
        to_i128(value)
    }
}

impl FromLittleEndian for u8 {
    open spec fn le_width() -> nat {
        1
    }

    open spec fn le_decoded(bytes: Seq<u8>) -> u8 {
        le_nat(bytes) as u8
    }

    fn from_bytes(bytes: &[u8]) -> (r: u8) {
        let value: u128 = le_bytes_value(bytes);
        proof {
            lemma_le_nat_bound(bytes@);
            lemma_pow256_widths();
        }
        value as u8
    }
}

impl FromLittleEndian for u16 {
    open spec fn le_width() -> nat {
        2
    }

    open spec fn le_decoded(bytes: Seq<u8>) -> u16 {
        le_nat(bytes) as u16
    }

    fn from_bytes(bytes: &[u8]) -> (r: u16) {
        let value: u128 = le_bytes_value(bytes);
        proof {
            lemma_le_nat_bound(bytes@);
            lemma_pow256_widths();
        }
        value as u16
    }
}

impl FromLittleEndian for u32 {
    open spec fn le_width() -> nat {
        4
    }

    open spec fn le_decoded(bytes: Seq<u8>) -> u32 {
        le_nat(bytes) as u32
    }

    fn from_bytes(bytes: &[u8]) -> (r: u32) {
        let value: u128 = le_bytes_value(bytes);
        proof {
            lemma_le_nat_bound(bytes@);
            lemma_pow256_widths();
        }
        value as u32
    }
}

impl FromLittleEndian for u64 {
    open spec fn le_width() -> nat {
        8
    }

    open spec fn le_decoded(bytes: Seq<u8>) -> u64 {
        le_nat(bytes) as u64
    }

    fn from_bytes(bytes: &[u8]) -> (r: u64) {
        let value: u128 = le_bytes_value(bytes);
        proof {
            lemma_le_nat_bound(bytes@);
            lemma_pow256_widths();
        }
        value as u64
    }
}

impl FromLittleEndian for u128 {
    open spec fn le_width() -> nat {
        16
    }

    open spec fn le_decoded(bytes: Seq<u8>) -> u128 {
        le_nat(bytes) as u128
    }

    fn from_bytes(bytes: &[u8]) -> (r: u128) {
        let value: u128 = le_bytes_value(bytes);
        proof {
            lemma_le_nat_bound(bytes@);
            lemma_pow256_widths();
        }
        value as u128
    }
}

/// A type whose values can be read from bytes that hold the most
/// significant byte first.
pub trait FromBigEndian: Sized {
    /// The number of bytes that hold one value.
    spec fn be_width() -> nat;

    /// The value that `bytes` hold.
    spec fn be_decoded(bytes: Seq<u8>) -> Self;

    fn from_bytes(bytes: &[u8]) -> (r: Self)
        requires
            bytes@.len() == Self::be_width(),
        ensures
            r == Self::be_decoded(bytes@),
    ;
}

impl FromBigEndian for Float64 {
    open spec fn be_width() -> nat {
        8
    }

    open spec fn be_decoded(bytes: Seq<u8>) -> Float64 {
        Float64 { bits: be_nat(bytes) as u64 }
    }

    fn from_bytes(bytes: &[u8]) -> (r: Float64) {
        let value: u128 = be_bytes_value(bytes);
        proof {
            lemma_be_nat_bound(bytes@);
            lemma_pow256_widths();
        }
        Float64::from_bits(value as u64)
    }
}

impl FromBigEndian for Float32 {
    open spec fn be_width() -> nat {
        4
    }

    open spec fn be_decoded(bytes: Seq<u8>) -> Float32 {
        Float32 { bits: be_nat(bytes) as u32 }
    }

    fn from_bytes(bytes: &[u8]) -> (r: Float32) {
        let value: u128 = be_bytes_value(bytes);
        proof {
            lemma_be_nat_bound(bytes@);
            lemma_pow256_widths();
        }
        Float32::from_bits(value as u32)
    }
}

impl FromBigEndian for i8 {
    open spec fn be_width() -> nat {
        1
    }

    open spec fn be_decoded(bytes: Seq<u8>) -> i8 {
        signed_of(be_nat(bytes), 1) as i8
    }

    fn from_bytes(bytes: &[u8]) -> (r: i8) {
        let value: u128 = be_bytes_value(bytes);
        proof {
            lemma_be_nat_bound(bytes@);
            lemma_pow256_widths();
        }
        to_i8(value)
    }
}

impl FromBigEndian for i16 {
    open spec fn be_width() -> nat {
        2
    }

    open spec fn be_decoded(bytes: Seq<u8>) -> i16 {
        signed_of(be_nat(bytes), 2) as i16
    }

    fn from_bytes(bytes: &[u8]) -> (r: i16) {
        let value: u128 = be_bytes_value(bytes);
        proof {
            lemma_be_nat_bound(bytes@);
            lemma_pow256_widths();
        }
        to_i16(value)
    }
}

impl FromBigEndian for i32 {
    open spec fn be_width() -> nat {
        4
    }

    open spec fn be_decoded(bytes: Seq<u8>) -> i32 {
        signed_of(be_nat(bytes), 4) as i32
    }

    fn from_bytes(bytes: &[u8]) -> (r: i32) {
        let value: u128 = be_bytes_value(bytes);
        proof {
            lemma_be_nat_bound(bytes@);
            lemma_pow256_widths();
        }
        to_i32(value)
    }
}

impl FromBigEndian for i64 {
    open spec fn be_width() -> nat {
        8
    }

    open spec fn be_decoded(bytes: Seq<u8>) -> i64 {
        signed_of(be_nat(bytes), 8) as i64
    }

    fn from_bytes(bytes: &[u8]) -> (r: i64) {
        let value: u128 = be_bytes_value(bytes);
        proof {
            lemma_be_nat_bound(bytes@);
            lemma_pow256_widths();
        }
        to_i64(value)
    }
}

impl FromBigEndian for i128 {
    open spec fn be_width() -> nat {
        16
    }

    open spec fn be_decoded(bytes: Seq<u8>) -> i128 {
        signed_of(be_nat(bytes), 16) as i128
    }

    fn from_bytes(bytes: &[u8]) -> (r: i128) {
        let value: u128 = be_bytes_value(bytes);
        proof {
            lemma_be_nat_bound(bytes@);
            lemma_pow256_widths();
        }
        to_i128(value)
    }
}

impl FromBigEndian for u8 {
    open spec fn be_width() -> nat {
        1
    }

    open spec fn be_decoded(bytes: Seq<u8>) -> u8 {
        be_nat(bytes) as u8
    }

    fn from_bytes(bytes: &[u8]) -> (r: u8) {
        let value: u128 = be_bytes_value(bytes);
        proof {
            lemma_be_nat_bound(bytes@);
            lemma_pow256_widths();
        }
        value as u8
    }
}

impl FromBigEndian for u16 {
    open spec fn be_width() -> nat {
        2
    }

    open spec fn be_decoded(bytes: Seq<u8>) -> u16 {
        be_nat(bytes) as u16
    }

    fn from_bytes(bytes: &[u8]) -> (r: u16) {
        let value: u128 = be_bytes_value(bytes);
        proof {
            lemma_be_nat_bound(bytes@);
            lemma_pow256_widths();
        }
        value as u16
    }
}

impl FromBigEndian for u32 {
    open spec fn be_width() -> nat {
        4
    }

    open spec fn be_decoded(bytes: Seq<u8>) -> u32 {
        be_nat(bytes) as u32
    }

    fn from_bytes(bytes: &[u8]) -> (r: u32) {
        let value: u128 = be_bytes_value(bytes);
        proof {
            lemma_be_nat_bound(bytes@);
            lemma_pow256_widths();
        }
        value as u32
    }
}

impl FromBigEndian for u64 {
    open spec fn be_width() -> nat {
        8
    }

    open spec fn be_decoded(bytes: Seq<u8>) -> u64 {
        be_nat(bytes) as u64
    }

    fn from_bytes(bytes: &[u8]) -> (r: u64) {
        let value: u128 = be_bytes_value(bytes);
        proof {
            lemma_be_nat_bound(bytes@);
            lemma_pow256_widths();
        }
        value as u64
    }
}

impl FromBigEndian for u128 {
    open spec fn be_width() -> nat {
        16
    }

    open spec fn be_decoded(bytes: Seq<u8>) -> u128 {
        be_nat(bytes) as u128
    }

    fn from_bytes(bytes: &[u8]) -> (r: u128) {
        let value: u128 = be_bytes_value(bytes);
        proof {
            lemma_be_nat_bound(bytes@);
            lemma_pow256_widths();
        }
        value as u128
    }
}

} // verus!
