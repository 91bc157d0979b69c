//! Saturating fixed-point arithmetic on `i64`.
//!
//! A value `x: i64` stands for the real number `x / SCALE_ONE`.  All
//! operations round toward zero and saturate at the `i64` range instead of
//! overflowing, so they are total and every result is pinned down exactly
//! by the spec functions below.

use vstd::prelude::*;

verus! {

/// Number of fixed-point units in 1.0: a value `x` represents `x / SCALE_ONE`.
pub const SCALE_ONE: i64 = 65536;

/// Clamp a mathematical integer into the `i64` range.
pub open spec fn sat64(x: int) -> int {
    if x > i64::MAX {
        i64::MAX as int
    } else if x < i64::MIN {
        i64::MIN as int
    } else {
        x
    }
}

/// Division rounding toward zero, for a positive divisor.
pub open spec fn div_trunc(a: int, b: int) -> int {
    if a >= 0 {
        a / b
    } else {
        -((-a) / b)
    }
}

/// The fixed-point product of `a` and `b`: the wide product scaled back
/// down, rounded toward zero, saturated at the `i64` range.
pub open spec fn fx_mul_spec(a: int, b: int) -> int {
    sat64(div_trunc(a * b, SCALE_ONE as int))
}

/// The saturating sum of `a` and `b`.
pub open spec fn fx_add_spec(a: int, b: int) -> int {
    sat64(a + b)
}

/// The saturating difference of `a` and `b`.
pub open spec fn fx_sub_spec(a: int, b: int) -> int {
    sat64(a - b)
}

fn clamp_i128(x: i128) -> (r: i64)
    ensures
        r as int == sat64(x as int),
{
    if x > i64::MAX as i128 {
        i64::MAX
    } else if x < i64::MIN as i128 {
        i64::MIN
    } else {
        x as i64
    }
}

/// Saturating fixed-point addition.
pub fn fx_add(a: i64, b: i64) -> (r: i64)
    ensures
        r as int == fx_add_spec(a as int, b as int),
{
    clamp_i128(a as i128 + b as i128)
}

/// Saturating fixed-point subtraction.
pub fn fx_sub(a: i64, b: i64) -> (r: i64)
    ensures
        r as int == fx_sub_spec(a as int, b as int),
{
    clamp_i128(a as i128 - b as i128)
}

/// Saturating fixed-point multiplication.
pub fn fx_mul(a: i64, b: i64) -> (r: i64)
    ensures
        r as int == fx_mul_spec(a as int, b as int),
{
    proof {
        assert((i128::MIN as int) < (a as int) * (b as int)
            && (a as int) * (b as int) < (i128::MAX as int)) by(nonlinear_arith)
            requires
                i64::MIN <= a as int <= i64::MAX,
                i64::MIN <= b as int <= i64::MAX,
        ;
    }
    let p: i128 = (a as i128) * (b as i128);
    let neg: bool = p < 0;
    let mag: u128 = if neg {
        (-p) as u128
    } else {
        p as u128
    };
    let q: u128 = mag / (SCALE_ONE as u128);
    let qi: i128 = if neg {
        -(q as i128)
    } else {
        q as i128
    };
    proof {
        vstd::arithmetic::div_mod::lemma_div_is_ordered(0, mag as int, SCALE_ONE as int);
        vstd::arithmetic::div_mod::lemma_div_is_ordered(
            mag as int,
            0x8000_0000_0000_0000_0000_0000_0000_0000,
            SCALE_ONE as int,
        );
        assert(qi as int == div_trunc(p as int, SCALE_ONE as int));
    }
    clamp_i128(qi)
}

} // verus!
