//! Scalars of the engine: IEEE 754 binary32 values carried as their `u32` bit
//! patterns. Arithmetic is done by outside soft-float code on those patterns;
//! each operation is named by an uninterpreted spec function, so that every
//! contract of the graph engine can say exactly which combination of scalar
//! operations produced a value.

use vstd::prelude::*;
use rustc_apfloat::Float;

verus! {

/// Bit pattern of `1.0`.
pub const ONE_BITS: u32 = 0x3F80_0000;
/// Bit pattern of `+0.0`.
pub const ZERO_BITS: u32 = 0;
/// Bit pattern of `-0.0`.
pub const NEG_ZERO_BITS: u32 = 0x8000_0000;
/// Bit pattern of the canonical quiet NaN.
pub const NAN_BITS: u32 = 0x7FC0_0000;
/// Bit pattern of `+infinity`.
pub const POS_INF_BITS: u32 = 0x7F80_0000;
/// Bit pattern of `-infinity`.
pub const NEG_INF_BITS: u32 = 0xFF80_0000;
/// Bit pattern of `0.01`, the slope of the leaky rectifier on negative input.
pub const LEAKY_SLOPE_BITS: u32 = 0x3C23_D70A;
/// Bit pattern of `ln 2`, used by the gradient of the base-2 logarithm.
pub const LN2_BITS: u32 = 0x3F31_7218;

/// The sign bit of a scalar: `true` for negative bit patterns.
pub open spec fn sign_bit(a: u32) -> bool {
    a >= 0x8000_0000
}

/// The biased exponent field (bits 23..31).
pub open spec fn exp_field(a: u32) -> u32 {
    (a >> 23) & 0xFF
}

/// The fraction field (bits 0..23).
pub open spec fn frac_field(a: u32) -> u32 {
    a & 0x7F_FFFF
}

/// Whether the bit pattern encodes a NaN.
pub open spec fn is_nan_bits(a: u32) -> bool {
    exp_field(a) == 0xFF && frac_field(a) != 0
}

/// Whether the bit pattern encodes a zero of either sign.
pub open spec fn is_zero_bits(a: u32) -> bool {
    a == ZERO_BITS || a == NEG_ZERO_BITS
}

/// Whether the encoded value compares strictly greater than zero:
/// a positive, non-NaN, nonzero value (positive infinity included).
pub open spec fn gt_zero_bits(a: u32) -> bool {
    !sign_bit(a) && a != ZERO_BITS && !is_nan_bits(a)
}

/// IEEE 754 addition of two binary32 values, round to nearest even.
pub uninterp spec fn add_bits(a: u32, b: u32) -> u32;

/// IEEE 754 subtraction of two binary32 values, round to nearest even.
pub uninterp spec fn sub_bits(a: u32, b: u32) -> u32;

/// IEEE 754 multiplication of two binary32 values, round to nearest even.
pub uninterp spec fn mul_bits(a: u32, b: u32) -> u32;

/// IEEE 754 division of two binary32 values, round to nearest even.
pub uninterp spec fn div_bits(a: u32, b: u32) -> u32;

/// The binary32 value nearest to the given unsigned integer.
pub uninterp spec fn of_u32_bits(k: u32) -> u32;

/// Relies on rustc_apfloat's `Single` addition (IEEE 754 binary32, round to
/// nearest even): the result depends on the two bit patterns alone.
#[verifier::external_body]
pub fn add_s(a: u32, b: u32) -> (r: u32)
    ensures
        r == add_bits(a, b),
{
    let x = rustc_apfloat::ieee::Single::from_bits(a as u128);
    let y = rustc_apfloat::ieee::Single::from_bits(b as u128);
    (x + y).value.to_bits() as u32
}

/// Relies on rustc_apfloat's `Single` subtraction (IEEE 754 binary32, round to
/// nearest even): the result depends on the two bit patterns alone.
#[verifier::external_body]
pub fn sub_s(a: u32, b: u32) -> (r: u32)
    ensures
        r == sub_bits(a, b),
{
    let x = rustc_apfloat::ieee::Single::from_bits(a as u128);
    let y = rustc_apfloat::ieee::Single::from_bits(b as u128);
    (x - y).value.to_bits() as u32
}

/// Relies on rustc_apfloat's `Single` multiplication (IEEE 754 binary32, round
/// to nearest even): the result depends on the two bit patterns alone.
#[verifier::external_body]
pub fn mul_s(a: u32, b: u32) -> (r: u32)
    ensures
        r == mul_bits(a, b),
{
    let x = rustc_apfloat::ieee::Single::from_bits(a as u128);
    let y = rustc_apfloat::ieee::Single::from_bits(b as u128);
    (x * y).value.to_bits() as u32
}

/// Relies on rustc_apfloat's `Single` division (IEEE 754 binary32, round to
/// nearest even): the result depends on the two bit patterns alone. Division
/// by zero yields an infinity or NaN bit pattern, never a panic.
#[verifier::external_body]
pub fn div_s(a: u32, b: u32) -> (r: u32)
    ensures
        r == div_bits(a, b),
{
    let x = rustc_apfloat::ieee::Single::from_bits(a as u128);
    let y = rustc_apfloat::ieee::Single::from_bits(b as u128);
    (x / y).value.to_bits() as u32
}

/// Relies on rustc_apfloat's `Single::from_u128` (round to nearest even): the
/// result depends on the integer alone.
#[verifier::external_body]
pub fn of_u32_s(k: u32) -> (r: u32)
    ensures
        r == of_u32_bits(k),
{
    rustc_apfloat::ieee::Single::from_u128(k as u128).value.to_bits() as u32
}

/// IEEE 754 negation is exactly a flip of the sign bit, for every bit pattern
/// (zeros, infinities and NaNs included), so it needs no outside call.
pub open spec fn neg_bits(a: u32) -> u32 {
    a ^ 0x8000_0000
}

/// Flip the sign bit: the negation of the encoded value.
pub fn neg_s(a: u32) -> (r: u32)
    ensures
        r == neg_bits(a),
{
    a ^ 0x8000_0000
}

/// Whether the encoded value compares strictly greater than zero.
pub fn gt_zero_s(a: u32) -> (r: bool)
    ensures
        r == gt_zero_bits(a),
{
    a < 0x8000_0000 && a != 0 && !(((a >> 23) & 0xFF) == 0xFF && (a & 0x7F_FFFF) != 0)
}

} // verus!
