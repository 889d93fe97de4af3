//! Transcendental scalar operations: exp, natural and base-2 logarithm,
//! tanh, and exponentiation by a scalar.
//!
//! A finite nonzero binary32 bit pattern is first decoded, in verified code,
//! into an exact pair `(sig, exp2)` with value `sig * 2^exp2`; the outside
//! big-float library evaluates the function on that pair at 24 bits of
//! precision and rounds the result back to a binary32 bit pattern. Special
//! inputs (NaN, infinities, zeros, magnitudes large enough to saturate the
//! result) are handled in verified code before the call, so the outside
//! library only ever sees bounded finite arguments.

use vstd::prelude::*;
use crate::scalar::{
    div_bits, div_s, mul_bits, mul_s, exp_field, frac_field, is_nan_bits, is_zero_bits, neg_bits, sign_bit, NAN_BITS, NEG_INF_BITS,
    NEG_ZERO_BITS, ONE_BITS, POS_INF_BITS, ZERO_BITS,
};

verus! {

/// The exact significand of a finite binary32 value: an integer `s` with
/// `|s| < 2^24` such that the value is `s * 2^(decoded_exp2(a))`.
pub open spec fn decoded_sig(a: u32) -> int {
    let m = frac_field(a) as int;
    let mag = if exp_field(a) == 0 {
        m
    } else {
        m + 0x80_0000
    };
    if sign_bit(a) {
        -mag
    } else {
        mag
    }
}

/// The exact binary exponent paired with `decoded_sig`.
pub open spec fn decoded_exp2(a: u32) -> int {
    if exp_field(a) == 0 {
        -149
    } else {
        exp_field(a) - 150
    }
}

/// Decode a finite binary32 bit pattern into its exact `(sig, exp2)` pair.
pub fn decode(a: u32) -> (r: (i64, i32))
    requires
        exp_field(a) != 0xFF,
    ensures
        r.0 == decoded_sig(a),
        r.1 == decoded_exp2(a),
{
    proof {
        assert(((a >> 23) & 0xFF) <= 0xFF) by (bit_vector);
        assert((a & 0x7F_FFFF) < 0x80_0000) by (bit_vector);
    }
    let e: u32 = (a >> 23) & 0xFF;
    let m: u32 = a & 0x7F_FFFF;
    let mag: u32 = if e == 0 {
        m
    } else {
        m + 0x80_0000
    };
    let sig: i64 = if a >= 0x8000_0000 {
        -(mag as i64)
    } else {
        mag as i64
    };
    let exp2: i32 = if e == 0 {
        -149
    } else {
        (e as i32) - 150
    };
    (sig, exp2)
}

/// Bounds of the decoded pair, needed to meet the preconditions of the
/// outside big-float calls.
proof fn lemma_decoded_bounds(a: u32)
    ensures
        -0x100_0000 < decoded_sig(a) < 0x100_0000,
        -149 <= decoded_exp2(a),
        exp_field(a) <= 0xFF,
        exp_field(a) < 134 ==> decoded_exp2(a) <= -17,
        exp_field(a) <= 0xFE ==> decoded_exp2(a) <= 105,
        !is_zero_bits(a) ==> decoded_sig(a) != 0,
        !sign_bit(a) ==> decoded_sig(a) >= 0,
        (exp_field(a) == 0xFF && frac_field(a) == 0 && !sign_bit(a)) ==> a == POS_INF_BITS,
{
    assert((a & 0x7F_FFFF) < 0x80_0000) by (bit_vector);
    assert(((a >> 23) & 0xFF) <= 0xFF) by (bit_vector);
    assert((((a >> 23) & 0xFF) == 0 && (a & 0x7F_FFFF) == 0) <==> (a == 0 || a
        == 0x8000_0000)) by (bit_vector);
    assert((((a >> 23) & 0xFF) == 0xFF && (a & 0x7F_FFFF) == 0 && a < 0x8000_0000) ==> a
        == 0x7F80_0000) by (bit_vector);
}

/// The binary32 bit pattern of `e^(sig * 2^exp2)`: computed at 24 bits of
/// precision, half-even, then converted to binary32 (the conversion
/// saturates at the format's edges and may re-round a subnormal result).
pub uninterp spec fn big_exp(sig: i64, exp2: i32) -> u32;

/// The binary32 bit pattern of `ln(sig * 2^exp2)`: computed at 24 bits of
/// precision, half-even, then converted to binary32.
pub uninterp spec fn big_ln(sig: i64, exp2: i32) -> u32;

/// The binary32 bit pattern of `log2(sig * 2^exp2)`: computed at 24 bits of
/// precision, half-even, then converted to binary32.
pub uninterp spec fn big_log2(sig: i64, exp2: i32) -> u32;

/// The binary32 bit pattern of `tanh(sig * 2^exp2)`: computed at 24 bits of
/// precision, half-even, then converted to binary32 (the conversion may
/// re-round a subnormal result).
pub uninterp spec fn big_tanh(sig: i64, exp2: i32) -> u32;

/// Relies on dashu-float's `FBig::exp` at 24 bits of precision, half-even
/// rounding, and its binary32 conversion: the result depends on the decoded
/// pair alone. The bounds keep the argument below 2^8 in magnitude, so the
/// computation stays within the library's exponent range.
#[verifier::external_body]
fn big_exp_s(sig: i64, exp2: i32) -> (r: u32)
    requires
        sig != 0,
        -0x100_0000 < sig < 0x100_0000,
        -149 <= exp2 <= -17,
    ensures
        r == big_exp(sig, exp2),
{
    let x = dashu_float::FBig::<dashu_float::round::mode::HalfEven, 2>::from_parts(
        dashu_int::IBig::from(sig),
        exp2 as isize,
    );
    let y = x.with_precision(24).value().exp();
    y.to_f32().value().to_bits()
}

/// Relies on dashu-float's `FBig::ln` at 24 bits of precision, half-even
/// rounding, and its binary32 conversion: the result depends on the decoded
/// pair alone. The argument is a positive finite value, the only inputs the
/// library's logarithm accepts.
#[verifier::external_body]
fn big_ln_s(sig: i64, exp2: i32) -> (r: u32)
    requires
        0 < sig < 0x100_0000,
        -149 <= exp2 <= 105,
    ensures
        r == big_ln(sig, exp2),
{
    let x = dashu_float::FBig::<dashu_float::round::mode::HalfEven, 2>::from_parts(
        dashu_int::IBig::from(sig),
        exp2 as isize,
    );
    let y = x.with_precision(24).value().ln();
    y.to_f32().value().to_bits()
}

/// Relies on dashu-float's `FBig::log2` at 24 bits of precision, half-even
/// rounding, and its binary32 conversion: the result depends on the decoded
/// pair alone. The argument is a positive finite value, the only inputs the
/// library's logarithm accepts.
#[verifier::external_body]
fn big_log2_s(sig: i64, exp2: i32) -> (r: u32)
    requires
        0 < sig < 0x100_0000,
        -149 <= exp2 <= 105,
    ensures
        r == big_log2(sig, exp2),
{
    let x = dashu_float::FBig::<dashu_float::round::mode::HalfEven, 2>::from_parts(
        dashu_int::IBig::from(sig),
        exp2 as isize,
    );
    let y = x.with_precision(24).value().log2();
    y.to_f32().value().to_bits()
}

/// Relies on dashu-float's `FBig::tanh` at 24 bits of precision, half-even
/// rounding, and its binary32 conversion: the result depends on the decoded
/// pair alone. The bounds keep the argument below 2^8 in magnitude, so the
/// computation stays within the library's exponent range.
#[verifier::external_body]
fn big_tanh_s(sig: i64, exp2: i32) -> (r: u32)
    requires
        sig != 0,
        -0x100_0000 < sig < 0x100_0000,
        -149 <= exp2 <= -17,
    ensures
        r == big_tanh(sig, exp2),
{
    let x = dashu_float::FBig::<dashu_float::round::mode::HalfEven, 2>::from_parts(
        dashu_int::IBig::from(sig),
        exp2 as isize,
    );
    let y = x.with_precision(24).value().tanh();
    y.to_f32().value().to_bits()
}

/// The binary32 exponential. Saturating branches: above `2^7` the true result
/// overflows binary32, below `-2^7` it underflows to zero.
pub open spec fn exp_bits(a: u32) -> u32 {
    if is_nan_bits(a) {
        NAN_BITS
    } else if a == POS_INF_BITS {
        POS_INF_BITS
    } else if a == NEG_INF_BITS {
        ZERO_BITS
    } else if is_zero_bits(a) {
        ONE_BITS
    } else if exp_field(a) >= 134 {
        if sign_bit(a) {
            ZERO_BITS
        } else {
            POS_INF_BITS
        }
    } else {
        big_exp(decoded_sig(a) as i64, decoded_exp2(a) as i32)
    }
}

/// e raised to the encoded value.
pub fn exp_s(a: u32) -> (r: u32)
    ensures
        r == exp_bits(a),
{
    let e: u32 = (a >> 23) & 0xFF;
    let m: u32 = a & 0x7F_FFFF;
    if e == 0xFF && m != 0 {
        NAN_BITS
    } else if a == POS_INF_BITS {
        POS_INF_BITS
    } else if a == NEG_INF_BITS {
        ZERO_BITS
    } else if a == ZERO_BITS || a == NEG_ZERO_BITS {
        ONE_BITS
    } else if e >= 134 {
        if a >= 0x8000_0000 {
            ZERO_BITS
        } else {
            POS_INF_BITS
        }
    } else {
        proof {
            lemma_decoded_bounds(a);
        }
        let (sig, exp2) = decode(a);
        big_exp_s(sig, exp2)
    }
}

/// The binary32 natural logarithm.
pub open spec fn ln_bits(a: u32) -> u32 {
    if is_nan_bits(a) {
        NAN_BITS
    } else if is_zero_bits(a) {
        NEG_INF_BITS
    } else if sign_bit(a) {
        NAN_BITS
    } else if a == POS_INF_BITS {
        POS_INF_BITS
    } else {
        big_ln(decoded_sig(a) as i64, decoded_exp2(a) as i32)
    }
}

/// The natural logarithm of the encoded value.
pub fn ln_s(a: u32) -> (r: u32)
    ensures
        r == ln_bits(a),
{
    let e: u32 = (a >> 23) & 0xFF;
    let m: u32 = a & 0x7F_FFFF;
    if e == 0xFF && m != 0 {
        NAN_BITS
    } else if a == ZERO_BITS || a == NEG_ZERO_BITS {
        NEG_INF_BITS
    } else if a >= 0x8000_0000 {
        NAN_BITS
    } else if a == POS_INF_BITS {
        POS_INF_BITS
    } else {
        proof {
            lemma_decoded_bounds(a);
        }
        let (sig, exp2) = decode(a);
        big_ln_s(sig, exp2)
    }
}

/// The binary32 base-2 logarithm.
pub open spec fn log2_bits(a: u32) -> u32 {
    if is_nan_bits(a) {
        NAN_BITS
    } else if is_zero_bits(a) {
        NEG_INF_BITS
    } else if sign_bit(a) {
        NAN_BITS
    } else if a == POS_INF_BITS {
        POS_INF_BITS
    } else {
        big_log2(decoded_sig(a) as i64, decoded_exp2(a) as i32)
    }
}

/// The base-2 logarithm of the encoded value.
pub fn log2_s(a: u32) -> (r: u32)
    ensures
        r == log2_bits(a),
{
    let e: u32 = (a >> 23) & 0xFF;
    let m: u32 = a & 0x7F_FFFF;
    if e == 0xFF && m != 0 {
        NAN_BITS
    } else if a == ZERO_BITS || a == NEG_ZERO_BITS {
        NEG_INF_BITS
    } else if a >= 0x8000_0000 {
        NAN_BITS
    } else if a == POS_INF_BITS {
        POS_INF_BITS
    } else {
        proof {
            lemma_decoded_bounds(a);
        }
        let (sig, exp2) = decode(a);
        big_log2_s(sig, exp2)
    }
}

/// The binary32 hyperbolic tangent. Above `2^7` in magnitude the true result
/// rounds to plus or minus one.
pub open spec fn tanh_bits(a: u32) -> u32 {
    if is_nan_bits(a) {
        NAN_BITS
    } else if is_zero_bits(a) {
        a
    } else if exp_field(a) >= 134 {
        if sign_bit(a) {
            neg_bits(ONE_BITS)
        } else {
            ONE_BITS
        }
    } else {
        big_tanh(decoded_sig(a) as i64, decoded_exp2(a) as i32)
    }
}

/// The hyperbolic tangent of the encoded value.
pub fn tanh_s(a: u32) -> (r: u32)
    ensures
        r == tanh_bits(a),
{
    let e: u32 = (a >> 23) & 0xFF;
    let m: u32 = a & 0x7F_FFFF;
    if e == 0xFF && m != 0 {
        NAN_BITS
    } else if a == ZERO_BITS || a == NEG_ZERO_BITS {
        a
    } else if e >= 134 {
        if a >= 0x8000_0000 {
            ONE_BITS ^ 0x8000_0000
        } else {
            ONE_BITS
        }
    } else {
        proof {
            lemma_decoded_bounds(a);
        }
        let (sig, exp2) = decode(a);
        big_tanh_s(sig, exp2)
    }
}

/// The magnitude of the encoded value with the sign bit cleared.
pub open spec fn abs_bits(a: u32) -> u32 {
    a & 0x7FFF_FFFF
}

/// Whether the encoded value is finite and an exact mathematical integer.
pub open spec fn is_int_bits(c: u32) -> bool {
    let e = exp_field(c);
    if e == 0xFF {
        false
    } else if e >= 150 {
        true
    } else if e < 127 {
        is_zero_bits(c)
    } else {
        frac_field(c) % (1u32 << ((150 - e) as u32)) == 0
    }
}

/// The integer magnitude of an integral encoded value whose exponent field
/// lies in `[127, 158)`, so that the magnitude is below `2^31`.
pub open spec fn int_mag(c: u32) -> u32 {
    let e = exp_field(c);
    let full = (frac_field(c) + 0x80_0000) as u32;
    if e <= 150 {
        full >> ((150 - e) as u32)
    } else {
        full << ((e - 150) as u32)
    }
}

/// The n-fold product `(...((1 * a) * a)...) * a`, one binary32
/// multiplication per step, exactly as the exponentiation loop computes it.
pub open spec fn powi_bits(a: u32, n: nat) -> u32
    decreases n,
{
    if n == 0 {
        ONE_BITS
    } else {
        mul_bits(powi_bits(a, (n - 1) as nat), a)
    }
}

/// Exponentiation of a nonnegative or infinite base by a nonzero exponent,
/// through `exp(c * ln b)`; the edge cases follow the usual binary32
/// conventions for zero and infinite operands.
pub open spec fn pow_gen(b: u32, c: u32) -> u32 {
    if b == NEG_INF_BITS {
        if sign_bit(c) {
            ZERO_BITS
        } else {
            POS_INF_BITS
        }
    } else if is_zero_bits(b) {
        if sign_bit(c) {
            POS_INF_BITS
        } else {
            ZERO_BITS
        }
    } else if sign_bit(b) {
        NAN_BITS
    } else if b == POS_INF_BITS {
        if sign_bit(c) {
            ZERO_BITS
        } else {
            POS_INF_BITS
        }
    } else {
        exp_bits(mul_bits(c, ln_bits(b)))
    }
}

/// The encoded value `a` raised to the encoded exponent `c`. A zero exponent
/// yields one for every base; an integral exponent of magnitude below `2^31`
/// is applied by repeated multiplication (so negative bases keep their exact
/// sign rule); any larger integral exponent is even, so the base's sign bit
/// is dropped; everything else goes through `exp(c * ln a)`.
pub open spec fn pow_bits(a: u32, c: u32) -> u32 {
    if is_zero_bits(c) {
        ONE_BITS
    } else if is_nan_bits(a) || is_nan_bits(c) {
        NAN_BITS
    } else if is_int_bits(c) && exp_field(c) < 158 {
        let p = powi_bits(a, int_mag(c) as nat);
        if sign_bit(c) {
            div_bits(ONE_BITS, p)
        } else {
            p
        }
    } else if is_int_bits(c) {
        pow_gen(abs_bits(a), c)
    } else {
        pow_gen(a, c)
    }
}

/// Repeated binary32 multiplication: `n` steps starting from one.
fn powi_s(a: u32, n: u32) -> (r: u32)
    ensures
        r == powi_bits(a, n as nat),
{
    let mut acc: u32 = ONE_BITS;
    let mut k: u32 = 0;
    while k < n
        invariant
            k <= n,
            acc == powi_bits(a, k as nat),
        decreases n - k,
    {
        acc = mul_s(acc, a);
        k = k + 1;
    }
    acc
}

/// The `exp(c * ln b)` path of exponentiation, with its edge cases.
fn pow_gen_s(b: u32, c: u32) -> (r: u32)
    ensures
        r == pow_gen(b, c),
{
    if b == NEG_INF_BITS {
        if c >= 0x8000_0000 {
            ZERO_BITS
        } else {
            POS_INF_BITS
        }
    } else if b == ZERO_BITS || b == NEG_ZERO_BITS {
        if c >= 0x8000_0000 {
            POS_INF_BITS
        } else {
            ZERO_BITS
        }
    } else if b >= 0x8000_0000 {
        NAN_BITS
    } else if b == POS_INF_BITS {
        if c >= 0x8000_0000 {
            ZERO_BITS
        } else {
            POS_INF_BITS
        }
    } else {
        let l = ln_s(b);
        let cl = mul_s(c, l);
        exp_s(cl)
    }
}

/// The encoded value `a` raised to the encoded exponent `c`.
pub fn pow_s(a: u32, c: u32) -> (r: u32)
    ensures
        r == pow_bits(a, c),
{
    let ea: u32 = (a >> 23) & 0xFF;
    let ma: u32 = a & 0x7F_FFFF;
    let ec: u32 = (c >> 23) & 0xFF;
    let mc: u32 = c & 0x7F_FFFF;
    proof {
        lemma_decoded_bounds(a);
        lemma_decoded_bounds(c);
    }
    if c == ZERO_BITS || c == NEG_ZERO_BITS {
        ONE_BITS
    } else if (ea == 0xFF && ma != 0) || (ec == 0xFF && mc != 0) {
        NAN_BITS
    } else {
        let is_int_c: bool = if ec == 0xFF {
            false
        } else if ec >= 150 {
            true
        } else if ec < 127 {
            false
        } else {
            proof {
                assert(127 <= ec && ec < 150 ==> (1u32 << ((150 - ec) as u32)) != 0)
                    by (bit_vector);
            }
            mc % (1u32 << (150 - ec)) == 0
        };
        if is_int_c && ec < 158 {
            let full: u32 = mc + 0x80_0000;
            let n: u32 = if ec <= 150 {
                full >> (150 - ec)
            } else {
                full << (ec - 150)
            };
            let p = powi_s(a, n);
            if c >= 0x8000_0000 {
                div_s(ONE_BITS, p)
            } else {
                p
            }
        } else if is_int_c {
            pow_gen_s(a & 0x7FFF_FFFF, c)
        } else {
            pow_gen_s(a, c)
        }
    }
}

} // verus!
