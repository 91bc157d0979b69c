//! Complex numbers over the fixed-point scalars of [`crate::fixed`].
//!
//! Only what the escape-time recurrence needs is provided: construction,
//! the step `z * z + c`, and the squared magnitude used for the divergence
//! test (comparing `|z|^2` against `threshold^2` avoids a square root and
//! orders magnitudes the same way).

use vstd::prelude::*;

use crate::fixed::{fx_add, fx_add_spec, fx_mul, fx_mul_spec, fx_sub, fx_sub_spec};

verus! {

/// A complex number; both parts are fixed-point scalars.
#[derive(Clone, Copy, Debug, PartialEq, Eq, Structural)]
pub struct Cpx {
    pub re: i64,
    pub im: i64,
}

impl DeepView for Cpx {
    type V = Cpx;

    open spec fn deep_view(&self) -> Cpx {
        *self
    }
}

/// The complex number `re + im * i`.
pub fn c(re: i64, im: i64) -> (r: Cpx)
    ensures
        r == (Cpx { re, im }),
{
    Cpx { re, im }
}

/// The real number `re` as a complex number.
pub fn cr(re: i64) -> (r: Cpx)
    ensures
        r == (Cpx { re, im: 0i64 }),
{
    c(re, 0)
}

/// The imaginary number `im * i` as a complex number.
pub fn ci(im: i64) -> (r: Cpx)
    ensures
        r == (Cpx { re: 0i64, im }),
{
    c(0, im)
}

/// One step of the escape-time recurrence: `z * z + c` in saturating
/// fixed-point arithmetic.
pub open spec fn cpx_step_spec(z: Cpx, q: Cpx) -> Cpx {
    Cpx {
        re: fx_add_spec(
            fx_sub_spec(fx_mul_spec(z.re as int, z.re as int), fx_mul_spec(z.im as int, z.im as int)),
            q.re as int,
        ) as i64,
        im: fx_add_spec(
            fx_add_spec(fx_mul_spec(z.re as int, z.im as int), fx_mul_spec(z.re as int, z.im as int)),
            q.im as int,
        ) as i64,
    }
}

/// The squared magnitude `re^2 + im^2`, saturated at the `i64` range.
pub open spec fn cpx_norm_sqr_spec(z: Cpx) -> int {
    fx_add_spec(fx_mul_spec(z.re as int, z.re as int), fx_mul_spec(z.im as int, z.im as int))
}

/// Computes `z * z + q`.
pub fn cpx_step(z: Cpx, q: Cpx) -> (r: Cpx)
    ensures
        r == cpx_step_spec(z, q),
{
    let rr = fx_mul(z.re, z.re);
    let ii = fx_mul(z.im, z.im);
    let ri = fx_mul(z.re, z.im);
    Cpx { re: fx_add(fx_sub(rr, ii), q.re), im: fx_add(fx_add(ri, ri), q.im) }
}

/// Computes the squared magnitude of `z`.
pub fn cpx_norm_sqr(z: Cpx) -> (r: i64)
    ensures
        r as int == cpx_norm_sqr_spec(z),
{
    fx_add(fx_mul(z.re, z.re), fx_mul(z.im, z.im))
}

} // verus!
