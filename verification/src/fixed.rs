//! Saturating fixed-point scalars.
//!
//! A scalar is an `i64` holding a real number scaled by `FX_ONE` (so the
//! raw value `65536` stands for `1.0`). Every operation clamps its result
//! to `[-FX_LIMIT, FX_LIMIT]`, which keeps the scalars closed under
//! composition: a well-formed input always yields a well-formed output,
//! with no overflow and no panic. Products are rescaled with a floor
//! division, so exact algebraic identities (such as adding a multiple of
//! the scale) survive the rescale; the lemmas at the bottom record the
//! identities the matrix code relies on.

use vstd::prelude::*;
use vstd::arithmetic::div_mod::{lemma_fundamental_div_mod, lemma_fundamental_div_mod_converse};

verus! {

/// Raw representation of the real number one.
pub const FX_ONE: i64 = 65536;

/// Largest raw magnitude a scalar may carry; results are clamped to it.
pub const FX_LIMIT: i64 = 0x4000_0000_0000;

/// A raw scalar is well formed when its magnitude is within the clamp range.
pub open spec fn fx_wf(x: i64) -> bool {
    -FX_LIMIT <= x <= FX_LIMIT
}

/// Saturation: the mathematical value pulled back into the representable range.
pub open spec fn fx_clamp(x: int) -> int {
    if x > FX_LIMIT as int {
        FX_LIMIT as int
    } else if x < -(FX_LIMIT as int) {
        -(FX_LIMIT as int)
    } else {
        x
    }
}

/// Rescaling after a product: floor division by the scale.
pub open spec fn fx_scale_down(x: int) -> int {
    x / (FX_ONE as int)
}

/// The specification of a saturating sum of two raw scalars.
pub open spec fn fx_add_spec(a: i64, b: i64) -> int {
    fx_clamp(a + b)
}

/// The specification of a saturating fixed-point product.
pub open spec fn fx_mul_spec(a: i64, b: i64) -> int {
    fx_clamp(fx_scale_down(a * b))
}

/// The specification of a saturating four-term fixed-point dot product.
pub open spec fn fx_dot4_spec(
    a0: i64, a1: i64, a2: i64, a3: i64,
    b0: i64, b1: i64, b2: i64, b3: i64,
) -> int {
    fx_clamp(fx_scale_down(a0 * b0 + a1 * b1 + a2 * b2 + a3 * b3))
}

/// Clamp a wide intermediate result back to a well-formed scalar.
pub fn fx_clamp_wide(x: i128) -> (r: i64)
    ensures
        r as int == fx_clamp(x as int),
        fx_wf(r),
{
    if x > FX_LIMIT as i128 {
        FX_LIMIT
    } else if x < -(FX_LIMIT as i128) {
        -FX_LIMIT
    } else {
        x as i64
    }
}

proof fn lemma_floor_div_neg(x: int)
    requires
        x < 0,
    ensures
        x / (FX_ONE as int) == -((-x + (FX_ONE - 1)) / (FX_ONE as int)),
{
    let s = FX_ONE as int;
    let m = -x + (s - 1);
    lemma_fundamental_div_mod(m, s);
    let q = m / s;
    let r = m % s;
    assert(m == q * s + r);
    assert(x == (-q) * s + (s - 1 - r)) by (nonlinear_arith)
        requires
            m == q * s + r,
            m == -x + (s - 1),
    {}
    lemma_fundamental_div_mod_converse(x, s, -q, s - 1 - r);
}

/// Floor division of a wide intermediate value by the scale.
pub fn fx_scale_down_wide(x: i128) -> (r: i128)
    requires
        i128::MIN < x,
    ensures
        r as int == fx_scale_down(x as int),
{
    if x >= 0 {
        let q: u128 = (x as u128) / (FX_ONE as u128);
        q as i128
    } else {
        let m: u128 = (-x) as u128;
        let q: u128 = (m + (FX_ONE - 1) as u128) / (FX_ONE as u128);
        proof {
            lemma_floor_div_neg(x as int);
        }
        -(q as i128)
    }
}

/// Saturating addition.
pub fn fx_add(a: i64, b: i64) -> (r: i64)
    requires
        fx_wf(a),
        fx_wf(b),
    ensures
        r as int == fx_add_spec(a, b),
        fx_wf(r),
{
    fx_clamp_wide(a as i128 + b as i128)
}

/// Saturating subtraction.
pub fn fx_sub(a: i64, b: i64) -> (r: i64)
    requires
        fx_wf(a),
        fx_wf(b),
    ensures
        r as int == fx_clamp(a - b),
        fx_wf(r),
{
    fx_clamp_wide(a as i128 - b as i128)
}

/// Exact negation; the clamp range is symmetric, so no value is lost.
pub fn fx_neg(a: i64) -> (r: i64)
    requires
        fx_wf(a),
    ensures
        r as int == -(a as int),
        fx_wf(r),
{
    -a
}

proof fn lemma_mul_magnitude(a: int, b: int, bound: int)
    requires
        -bound <= a <= bound,
        -bound <= b <= bound,
        0 <= bound,
    ensures
        -(bound * bound) <= a * b <= bound * bound,
{
    assert(-(bound * bound) <= a * b <= bound * bound) by (nonlinear_arith)
        requires
            -bound <= a <= bound,
            -bound <= b <= bound,
            0 <= bound,
    {}
}

/// Saturating fixed-point multiplication.
pub fn fx_mul(a: i64, b: i64) -> (r: i64)
    requires
        fx_wf(a),
        fx_wf(b),
    ensures
        r as int == fx_mul_spec(a, b),
        fx_wf(r),
{
    proof {
        lemma_mul_magnitude(a as int, b as int, FX_LIMIT as int);
    }
    let p: i128 = (a as i128) * (b as i128);
    fx_clamp_wide(fx_scale_down_wide(p))
}

/// Saturating dot product of a matrix row with a matrix column.
pub fn fx_dot4(
    a0: i64, a1: i64, a2: i64, a3: i64,
    b0: i64, b1: i64, b2: i64, b3: i64,
) -> (r: i64)
    requires
        fx_wf(a0), fx_wf(a1), fx_wf(a2), fx_wf(a3),
        fx_wf(b0), fx_wf(b1), fx_wf(b2), fx_wf(b3),
    ensures
        r as int == fx_dot4_spec(a0, a1, a2, a3, b0, b1, b2, b3),
        fx_wf(r),
{
    proof {
        lemma_mul_magnitude(a0 as int, b0 as int, FX_LIMIT as int);
        lemma_mul_magnitude(a1 as int, b1 as int, FX_LIMIT as int);
        lemma_mul_magnitude(a2 as int, b2 as int, FX_LIMIT as int);
        lemma_mul_magnitude(a3 as int, b3 as int, FX_LIMIT as int);
    }
    let s: i128 = (a0 as i128) * (b0 as i128) + (a1 as i128) * (b1 as i128)
        + (a2 as i128) * (b2 as i128) + (a3 as i128) * (b3 as i128);
    fx_clamp_wide(fx_scale_down_wide(s))
}

/// Adding a multiple of the scale commutes exactly with the rescale.
pub proof fn lemma_scale_down_add_multiple(x: int, k: int)
    ensures
        fx_scale_down(x + k * (FX_ONE as int)) == fx_scale_down(x) + k,
{
    let s = FX_ONE as int;
    lemma_fundamental_div_mod(x, s);
    let q = x / s;
    let r = x % s;
    assert(x + k * s == (q + k) * s + r) by (nonlinear_arith)
        requires
            x == q * s + r,
    {}
    lemma_fundamental_div_mod_converse(x + k * s, s, q + k, r);
}

/// Rescaling an exact multiple of the scale recovers the factor.
pub proof fn lemma_scale_down_multiple(k: int)
    ensures
        fx_scale_down(k * (FX_ONE as int)) == k,
{
    lemma_scale_down_add_multiple(0, k);
}

} // verus!
