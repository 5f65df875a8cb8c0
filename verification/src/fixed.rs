//! Saturating fixed-point arithmetic on `i64` values.
//!
//! A fixed-point number stores the physical value multiplied by [`FX_ONE`].
//! All operations saturate at the `i64` range instead of wrapping, and all
//! divisions truncate toward zero, so every operation is total and has an
//! exact specification.

use vstd::prelude::*;

verus! {

/// The fixed-point scale: the representation of the value one.
pub const FX_ONE: i64 = 65536;

/// The representation of one half.
pub const FX_HALF: i64 = 32768;

/// The representation of one quarter.
pub const FX_QUARTER: i64 = 16384;

/// The smaller of two integers.
pub open spec fn imin(a: int, b: int) -> int {
    if a < b {
        a
    } else {
        b
    }
}

/// Saturation of an unbounded integer into the `i64` range.
pub open spec fn sat64(x: int) -> int {
    if x > i64::MAX as int {
        i64::MAX as int
    } else if x < i64::MIN as int {
        i64::MIN as int
    } else {
        x
    }
}

/// Division truncating toward zero (the machine convention), defined for a
/// positive divisor in terms of Verus's Euclidean `/`.
pub open spec fn div_to_zero(a: int, b: int) -> int {
    if a >= 0 {
        a / b
    } else {
        -((-a) / b)
    }
}

/// Fixed-point addition.
pub open spec fn fx_add_s(a: int, b: int) -> int {
    sat64(a + b)
}

/// Fixed-point subtraction.
pub open spec fn fx_sub_s(a: int, b: int) -> int {
    sat64(a - b)
}

/// Fixed-point negation.
pub open spec fn fx_neg_s(a: int) -> int {
    sat64(-a)
}

/// Fixed-point multiplication: the double-width product, rescaled.
pub open spec fn fx_mul_s(a: int, b: int) -> int {
    sat64(div_to_zero(a * b, FX_ONE as int))
}

/// Fixed-point division by a positive fixed-point number.
pub open spec fn fx_div_s(a: int, b: int) -> int {
    sat64(div_to_zero(a * (FX_ONE as int), b))
}

/// Scaling a fixed-point number by a plain integer.
pub open spec fn fx_scale_s(a: int, m: int) -> int {
    sat64(a * m)
}

/// Dividing a fixed-point number by a positive plain integer.
pub open spec fn fx_div_int_s(a: int, d: int) -> int {
    sat64(div_to_zero(a, d))
}

/// The fixed-point representation of a plain integer.
pub open spec fn fx_of_int_s(i: int) -> int {
    sat64(i * (FX_ONE as int))
}

/// Clamping into a closed interval.
pub open spec fn clamp_s(x: int, lo: int, hi: int) -> int {
    if x < lo {
        lo
    } else if x > hi {
        hi
    } else {
        x
    }
}

/// The product of two `i64` values always fits strictly inside `i128`.
proof fn lemma_prod_in_i128(a: int, b: int)
    by (nonlinear_arith)
    requires
        i64::MIN as int <= a <= i64::MAX as int,
        i64::MIN as int <= b <= i64::MAX as int,
    ensures
        (i128::MIN as int) < a * b,
        a * b < (i128::MAX as int),
{
}

/// Saturating conversion from a double-width intermediate result.
pub fn sat_from_i128(x: i128) -> (r: i64)
    ensures
        r as int == sat64(x as int),
{
    if x > i64::MAX as i128 {
        i64::MAX
    } else if x < i64::MIN as i128 {
        i64::MIN
    } else {
        x as i64
    }
}

/// Double-width division truncating toward zero, via unsigned division.
fn div_q(a: i128, b: i128) -> (r: i128)
    requires
        b > 0,
        a > i128::MIN,
    ensures
        r as int == div_to_zero(a as int, b as int),
{
    proof {
        vstd::arithmetic::div_mod::lemma_div_pos_is_pos(if a >= 0 { a as int } else { -a as int }, b as int);
        vstd::arithmetic::div_mod::lemma_div_nonincreasing(if a >= 0 { a as int } else { -a as int }, b as int);
    }
    if a >= 0 {
        let q: u128 = (a as u128) / (b as u128);
        q as i128
    } else {
        let q: u128 = ((-a) as u128) / (b as u128);
        -(q as i128)
    }
}

/// Saturating fixed-point addition.
pub fn fx_add(a: i64, b: i64) -> (r: i64)
    ensures
        r as int == fx_add_s(a as int, b as int),
{
    sat_from_i128(a as i128 + b as i128)
}

/// Saturating fixed-point subtraction.
pub fn fx_sub(a: i64, b: i64) -> (r: i64)
    ensures
        r as int == fx_sub_s(a as int, b as int),
{
    sat_from_i128(a as i128 - b as i128)
}

/// Saturating fixed-point negation.
pub fn fx_neg(a: i64) -> (r: i64)
    ensures
        r as int == fx_neg_s(a as int),
{
    sat_from_i128(-(a as i128))
}

/// Saturating fixed-point multiplication.
pub fn fx_mul(a: i64, b: i64) -> (r: i64)
    ensures
        r as int == fx_mul_s(a as int, b as int),
{
    proof {
        lemma_prod_in_i128(a as int, b as int);
    }
    let p: i128 = a as i128 * b as i128;
    let q: i128 = div_q(p, FX_ONE as i128);
    sat_from_i128(q)
}

/// Saturating fixed-point division by a positive fixed-point number.
pub fn fx_div(a: i64, b: i64) -> (r: i64)
    requires
        b > 0,
    ensures
        r as int == fx_div_s(a as int, b as int),
{
    proof {
        lemma_prod_in_i128(a as int, FX_ONE as int);
    }
    let p: i128 = a as i128 * FX_ONE as i128;
    let q: i128 = div_q(p, b as i128);
    sat_from_i128(q)
}

/// Saturating scaling by a plain integer.
pub fn fx_scale(a: i64, m: i64) -> (r: i64)
    ensures
        r as int == fx_scale_s(a as int, m as int),
{
    proof {
        lemma_prod_in_i128(a as int, m as int);
    }
    let p: i128 = a as i128 * m as i128;
    sat_from_i128(p)
}

/// Saturating division by a positive plain integer.
pub fn fx_div_int(a: i64, d: i64) -> (r: i64)
    requires
        d > 0,
    ensures
        r as int == fx_div_int_s(a as int, d as int),
{
    let q: i128 = div_q(a as i128, d as i128);
    sat_from_i128(q)
}

/// The fixed-point representation of a plain integer, saturated.
pub fn fx_of_int(i: i64) -> (r: i64)
    ensures
        r as int == fx_of_int_s(i as int),
{
    proof {
        lemma_prod_in_i128(i as int, FX_ONE as int);
    }
    let p: i128 = i as i128 * FX_ONE as i128;
    sat_from_i128(p)
}

/// The integer part of a nonnegative fixed-point number.
pub fn fx_floor(a: i64) -> (r: i64)
    requires
        a >= 0,
    ensures
        r as int == a as int / (FX_ONE as int),
        0 <= r <= a,
{
    proof {
        vstd::arithmetic::div_mod::lemma_div_pos_is_pos(a as int, FX_ONE as int);
        vstd::arithmetic::div_mod::lemma_div_nonincreasing(a as int, FX_ONE as int);
    }
    ((a as u64) / (FX_ONE as u64)) as i64
}

/// Clamping into a closed interval.
pub fn fx_clamp(x: i64, lo: i64, hi: i64) -> (r: i64)
    requires
        lo <= hi,
    ensures
        r as int == clamp_s(x as int, lo as int, hi as int),
{
    if x < lo {
        lo
    } else if x > hi {
        hi
    } else {
        x
    }
}

/// Multiplying by zero gives zero exactly.
pub proof fn lemma_fx_mul_zero(a: int)
    ensures
        fx_mul_s(a, 0) == 0,
        fx_mul_s(0, a) == 0,
{
    assert(a * 0 == 0) by (nonlinear_arith);
    assert(0 * a == 0) by (nonlinear_arith);
}

/// Multiplying by the fixed-point one is exact.
pub proof fn lemma_fx_mul_one(f: int)
    requires
        i64::MIN as int <= f <= i64::MAX as int,
    ensures
        fx_mul_s(FX_ONE as int, f) == f,
        fx_mul_s(f, FX_ONE as int) == f,
{
    let s = FX_ONE as int;
    vstd::arithmetic::div_mod::lemma_div_multiples_vanish(f, s);
    assert(s * f == f * s) by (nonlinear_arith);
    if f >= 0 {
        assert(div_to_zero(s * f, s) == f);
    } else {
        assert(-(s * f) == s * (-f)) by (nonlinear_arith);
        vstd::arithmetic::div_mod::lemma_div_multiples_vanish(-f, s);
        assert(div_to_zero(s * f, s) == -((s * (-f)) / s));
    }
}

/// Products, quotients and scalings of nonnegative values stay nonnegative.
pub proof fn lemma_fx_nonneg(a: int, b: int)
    requires
        0 <= a,
        0 <= b,
    ensures
        0 <= fx_mul_s(a, b),
        0 <= fx_scale_s(a, b),
        0 <= fx_of_int_s(a),
        0 <= fx_add_s(a, b),
{
    assert(0 <= a * b) by (nonlinear_arith)
        requires
            0 <= a,
            0 <= b,
    ;
    assert(0 <= a * (FX_ONE as int)) by (nonlinear_arith)
        requires
            0 <= a,
    ;
    vstd::arithmetic::div_mod::lemma_div_pos_is_pos(a * b, FX_ONE as int);
}

/// A back-traced position clamped into `[1/2, m + 1/2]` has its integer
/// part in `[0, m]`.
pub proof fn lemma_floor_in_range(x: int, m: int)
    requires
        0 <= m,
        FX_HALF as int <= x,
        x <= m * (FX_ONE as int) + FX_HALF as int,
    ensures
        0 <= x / (FX_ONE as int) <= m,
{
    let s = FX_ONE as int;
    vstd::arithmetic::div_mod::lemma_div_pos_is_pos(x, s);
    vstd::arithmetic::div_mod::lemma_div_is_ordered(x, m * s + FX_HALF as int, s);
    vstd::arithmetic::div_mod::lemma_fundamental_div_mod_converse_div(
        m * s + FX_HALF as int,
        s,
        m,
        FX_HALF as int,
    );
}

/// A whole number of cells, divided back by the scale, is exact.
pub proof fn lemma_fx_of_int_exact(i: int)
    requires
        0 <= i,
        i * (FX_ONE as int) <= i64::MAX as int,
    ensures
        fx_of_int_s(i) == i * (FX_ONE as int),
        fx_of_int_s(i) / (FX_ONE as int) == i,
{
    vstd::arithmetic::div_mod::lemma_div_multiples_vanish(i, FX_ONE as int);
    assert(FX_ONE as int * i == i * (FX_ONE as int)) by (nonlinear_arith);
    assert(i * (FX_ONE as int) >= 0) by (nonlinear_arith)
        requires 0 <= i;
}

} // verus!
