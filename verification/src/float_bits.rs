//! Predicates on IEEE-754 binary64 values, decided on their bit patterns.
//!
//! The simulator's game data and times are binary64 numbers. The library keeps
//! such a number as its 64-bit pattern (`f64::to_bits`): bit 63 is the sign,
//! bits 52..62 the biased exponent and bits 0..51 the fraction. A pattern whose
//! exponent is all ones is an infinity (fraction zero) or a NaN (fraction
//! non-zero); every other pattern is finite. For two non-negative, non-NaN
//! patterns, numeric order is the order of the patterns read as unsigned
//! integers, which is what `f64::total_cmp` uses for them.
use vstd::prelude::*;

verus! {

/// The sign bit.
pub const SIGN_BIT: u64 = 0x8000_0000_0000_0000;

/// The pattern of positive infinity; every finite magnitude lies below it.
pub const POSITIVE_INFINITY_BITS: u64 = 0x7FF0_0000_0000_0000;

/// The pattern of `1.0`.
pub const ONE_BITS: u64 = 0x3FF0_0000_0000_0000;

/// The pattern of `-10.0`.
pub const MINUS_TEN_BITS: u64 = 0xC024_0000_0000_0000;

/// The pattern of `-0.0`.
pub const NEGATIVE_ZERO_BITS: u64 = 0x8000_0000_0000_0000;

/// Whether the sign bit is set.
pub open spec fn sign_set(bits: u64) -> bool {
    bits >= SIGN_BIT
}

/// The pattern with the sign bit cleared.
pub open spec fn magnitude(bits: u64) -> u64 {
    (bits % SIGN_BIT) as u64
}

/// The value is finite (neither infinite nor NaN).
pub open spec fn spec_is_finite(bits: u64) -> bool {
    magnitude(bits) < POSITIVE_INFINITY_BITS
}

/// The value is a NaN.
pub open spec fn spec_is_nan(bits: u64) -> bool {
    magnitude(bits) > POSITIVE_INFINITY_BITS
}

/// The value compares equal to `0.0` (either zero).
pub open spec fn spec_is_zero(bits: u64) -> bool {
    magnitude(bits) == 0
}

/// The value is strictly below `0.0`.
pub open spec fn spec_is_negative(bits: u64) -> bool {
    sign_set(bits) && !spec_is_nan(bits) && !spec_is_zero(bits)
}

/// `value <= 0.0`.
pub open spec fn spec_le_zero(bits: u64) -> bool {
    spec_is_zero(bits) || spec_is_negative(bits)
}

/// `value.is_finite() && value >= 0.0`.
pub open spec fn spec_finite_non_negative(bits: u64) -> bool {
    spec_is_finite(bits) && !spec_is_negative(bits)
}

/// `value.is_finite() && value > 0.0`.
pub open spec fn spec_finite_positive(bits: u64) -> bool {
    !sign_set(bits) && 0 < bits < POSITIVE_INFINITY_BITS
}

/// `value.is_finite() && 0.0 <= value && value < 1.0`.
pub open spec fn spec_in_unit_interval(bits: u64) -> bool {
    bits < ONE_BITS || bits == NEGATIVE_ZERO_BITS
}

/// `value.is_finite() && 0.0 <= value && value <= 1.0`.
pub open spec fn spec_in_closed_unit_interval(bits: u64) -> bool {
    bits <= ONE_BITS || bits == NEGATIVE_ZERO_BITS
}

/// The pattern with its sign bit cleared.
pub fn magnitude_of(bits: u64) -> (m: u64)
    ensures
        m == magnitude(bits),
{
    let m = bits & 0x7FFF_FFFF_FFFF_FFFFu64;
    assert(bits & 0x7FFF_FFFF_FFFF_FFFFu64 == bits % 0x8000_0000_0000_0000u64) by (bit_vector);
    m
}

/// `value.is_finite()`.
pub fn is_finite(bits: u64) -> (r: bool)
    ensures
        r == spec_is_finite(bits),
{
    magnitude_of(bits) < POSITIVE_INFINITY_BITS
}

/// `value == 0.0`.
pub fn is_zero(bits: u64) -> (r: bool)
    ensures
        r == spec_is_zero(bits),
{
    magnitude_of(bits) == 0
}

/// `value != 0.0`; true for NaN as well.
pub fn is_non_zero(bits: u64) -> (r: bool)
    ensures
        r == !spec_is_zero(bits),
{
    !is_zero(bits)
}

/// `value <= 0.0`.
pub fn le_zero(bits: u64) -> (r: bool)
    ensures
        r == spec_le_zero(bits),
{
    let m = magnitude_of(bits);
    m == 0 || (bits >= SIGN_BIT && m <= POSITIVE_INFINITY_BITS)
}

/// `value.is_finite() && value >= 0.0`.
pub fn finite_non_negative(bits: u64) -> (r: bool)
    ensures
        r == spec_finite_non_negative(bits),
{
    let m = magnitude_of(bits);
    m < POSITIVE_INFINITY_BITS && (bits < SIGN_BIT || m == 0)
}

/// `value.is_finite() && value > 0.0`.
pub fn finite_positive(bits: u64) -> (r: bool)
    ensures
        r == spec_finite_positive(bits),
{
    0 < bits && bits < POSITIVE_INFINITY_BITS
}

/// `value.is_finite() && (0.0..1.0).contains(&value)`.
pub fn in_unit_interval(bits: u64) -> (r: bool)
    ensures
        r == spec_in_unit_interval(bits),
{
    bits < ONE_BITS || bits == NEGATIVE_ZERO_BITS
}

/// `value.is_finite() && (0.0..=1.0).contains(&value)`.
pub fn in_closed_unit_interval(bits: u64) -> (r: bool)
    ensures
        r == spec_in_closed_unit_interval(bits),
{
    bits <= ONE_BITS || bits == NEGATIVE_ZERO_BITS
}



/// The position of a non-NaN value on the number line, as an integer:
/// the magnitude pattern, negated when the sign is set (so both zeros are 0).
pub open spec fn order_key(bits: u64) -> int {
    if sign_set(bits) {
        -(magnitude(bits) as int)
    } else {
        bits as int
    }
}

/// `a > b` for binary64 values; false when either is NaN.
pub open spec fn spec_gt(a: u64, b: u64) -> bool {
    !spec_is_nan(a) && !spec_is_nan(b) && order_key(a) > order_key(b)
}

fn key_of(bits: u64) -> (k: i64)
    ensures
        k == order_key(bits),
{
    let m = magnitude_of(bits);
    if bits >= SIGN_BIT {
        -(m as i64)
    } else {
        bits as i64
    }
}

/// `a > b`.
pub fn gt(a: u64, b: u64) -> (r: bool)
    ensures
        r == spec_gt(a, b),
{
    let ma = magnitude_of(a);
    let mb = magnitude_of(b);
    if ma > POSITIVE_INFINITY_BITS || mb > POSITIVE_INFINITY_BITS {
        return false;
    }
    key_of(a) > key_of(b)
}

/// A binary64 number as the library reads it: its bit pattern, on which
/// comparisons are decided, and the text `Display` writes for it, which
/// report messages quote.
#[derive(Clone, Debug, PartialEq, Eq)]
pub struct Number {
    pub bits: u64,
    pub text: String,
}

} // verus!
