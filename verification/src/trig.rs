//! Fixed-point sine and cosine.
//!
//! Rotation matrices need the sine and cosine of a node's Euler angles
//! (given in radians, scaled by `FX_ONE`). The angle is first reduced to
//! `[-pi/2, pi/2]` using the period and the symmetries of the sine, and a
//! degree-nine Taylor polynomial is then evaluated in fixed point. The
//! result of that exact integer computation is the specification; the
//! polynomial agrees with the real sine to within a few representation
//! steps on the reduced range, and is finally clamped to the unit range.

use vstd::prelude::*;
use vstd::arithmetic::div_mod::{lemma_div_is_ordered, lemma_div_pos_is_pos};
use crate::fixed::FX_ONE;

verus! {

/// The angle pi, in fixed-point radians.
pub const FX_PI: i64 = 205887;

/// The angle pi/2, in fixed-point radians.
pub const FX_HALF_PI: i64 = 102944;

/// The full period 2*pi, in fixed-point radians.
pub const FX_TAU: i64 = 411775;

/// Clamp to the unit range; a sine value never leaves it.
pub open spec fn unit_clamp(x: int) -> int {
    if x > FX_ONE as int {
        FX_ONE as int
    } else if x < -(FX_ONE as int) {
        -(FX_ONE as int)
    } else {
        x
    }
}

/// The fixed-point Taylor polynomial of the sine on `[0, pi/2]`.
pub open spec fn sin_poly(u: int) -> int
    recommends
        0 <= u <= FX_HALF_PI,
{
    let s = FX_ONE as int;
    let u2 = (u * u) / s;
    let u3 = (u * u2) / s;
    let u5 = (u3 * u2) / s;
    let u7 = (u5 * u2) / s;
    let u9 = (u7 * u2) / s;
    u - u3 / 6 + u5 / 120 - u7 / 5040 + u9 / 362880
}

/// The sine of an angle already reduced to `[-pi, pi]`.
pub open spec fn sin_reduced(t: int) -> int
    recommends
        -(FX_PI as int) <= t <= FX_PI as int,
{
    let f = if t > FX_HALF_PI as int {
        FX_PI as int - t
    } else if t < -(FX_HALF_PI as int) {
        -(FX_PI as int) - t
    } else {
        t
    };
    if f >= 0 {
        sin_poly(f)
    } else {
        -sin_poly(-f)
    }
}

/// The fixed-point sine of any angle.
#[verifier::opaque]
pub open spec fn fx_sin_spec(x: int) -> int {
    let m = (if x < 0 { -x } else { x }) % (FX_TAU as int);
    let t = if m > FX_PI as int { m - FX_TAU as int } else { m };
    let v = sin_reduced(t);
    unit_clamp(if x < 0 { -v } else { v })
}

/// The fixed-point Taylor polynomial of the cosine on `[0, pi/2]`; it is
/// exactly one at zero.
pub open spec fn cos_poly(u: int) -> int
    recommends
        0 <= u <= FX_HALF_PI,
{
    let s = FX_ONE as int;
    let u2 = (u * u) / s;
    let u4 = (u2 * u2) / s;
    let u6 = (u4 * u2) / s;
    let u8 = (u6 * u2) / s;
    s - u2 / 2 + u4 / 24 - u6 / 720 + u8 / 40320
}

/// The cosine of an angle already reduced to `[0, pi]`.
pub open spec fn cos_reduced(t: int) -> int
    recommends
        0 <= t <= FX_PI as int,
{
    if t > FX_HALF_PI as int {
        -cos_poly(FX_PI as int - t)
    } else {
        cos_poly(t)
    }
}

/// The fixed-point cosine of any angle.
#[verifier::opaque]
pub open spec fn fx_cos_spec(x: int) -> int {
    let m = (if x < 0 { -x } else { x }) % (FX_TAU as int);
    let t = if m > FX_PI as int { FX_TAU as int - m } else { m };
    unit_clamp(cos_reduced(t))
}

proof fn lemma_poly_power_bounds(u: u64)
    requires
        u <= FX_HALF_PI as u64,
    ensures
        u * u <= 102944 * 102944,
        (u * u) / (FX_ONE as int) <= 161705,
        u * ((u * u) / (FX_ONE as int)) <= 102944 * 161705,
{
    assert(u * u <= 102944 * 102944) by (nonlinear_arith)
        requires
            u <= 102944,
    {}
    lemma_div_is_ordered((u * u) as int, 102944int * 102944, FX_ONE as int);
    assert(u * ((u * u) / (FX_ONE as int)) <= 102944 * 161705) by (nonlinear_arith)
        requires
            u <= 102944,
            (u * u) / (FX_ONE as int) <= 161705,
    {}
}

/// Evaluate the sine polynomial on a nonnegative reduced angle.
fn sin_poly_exec(u: u64) -> (r: i64)
    requires
        u <= FX_HALF_PI as u64,
    ensures
        r as int == sin_poly(u as int),
        -(2 * FX_ONE as int) <= r as int <= 2 * FX_ONE as int,
{
    proof {
        lemma_poly_power_bounds(u);
    }
    let s = FX_ONE as u64;
    let u2: u64 = (u * u) / s;
    let u3: u64 = (u * u2) / s;
    proof {
        lemma_div_is_ordered((u * u2) as int, 102944int * 161705, FX_ONE as int);
        assert(u3 * u2 <= 254100 * 161705) by (nonlinear_arith)
            requires
                u3 <= 254100,
                u2 <= 161705,
        {}
        lemma_div_is_ordered((u3 * u2) as int, 254100int * 161705, FX_ONE as int);
    }
    let u5: u64 = (u3 * u2) / s;
    proof {
        assert(u5 * u2 <= 627100 * 161705) by (nonlinear_arith)
            requires
                u5 <= 627100,
                u2 <= 161705,
        {}
        lemma_div_is_ordered((u5 * u2) as int, 627100int * 161705, FX_ONE as int);
    }
    let u7: u64 = (u5 * u2) / s;
    proof {
        assert(u7 * u2 <= 1548000 * 161705) by (nonlinear_arith)
            requires
                u7 <= 1548000,
                u2 <= 161705,
        {}
        lemma_div_is_ordered((u7 * u2) as int, 1548000int * 161705, FX_ONE as int);
    }
    let u9: u64 = (u7 * u2) / s;
    let r: i64 = u as i64 - (u3 / 6) as i64 + (u5 / 120) as i64 - (u7 / 5040) as i64
        + (u9 / 362880) as i64;
    proof {
        lemma_div_is_ordered(u3 as int, 254100int * 161705, 6);
        lemma_div_is_ordered(u5 as int, 627100int * 161705, 120);
        lemma_div_is_ordered(u7 as int, 1548000int * 161705, 5040);
        lemma_div_is_ordered(u9 as int, 3820000int * 161705, 362880);
        lemma_div_pos_is_pos(u3 as int, 6);
        lemma_div_pos_is_pos(u5 as int, 120);
        lemma_div_pos_is_pos(u7 as int, 5040);
        lemma_div_pos_is_pos(u9 as int, 362880);
    }
    r
}

/// The sine specification never leaves the unit range.
pub proof fn lemma_sin_spec_range(x: int)
    ensures
        -(FX_ONE as int) <= fx_sin_spec(x) <= FX_ONE as int,
{
    reveal(fx_sin_spec);
}

/// The cosine specification never leaves the unit range.
pub proof fn lemma_cos_spec_range(x: int)
    ensures
        -(FX_ONE as int) <= fx_cos_spec(x) <= FX_ONE as int,
{
    reveal(fx_cos_spec);
}

/// The fixed-point sine. The result is exactly `fx_sin_spec` and always
/// lies in the unit range.
pub fn fx_sin(x: i64) -> (r: i64)
    requires
        i64::MIN < x,
    ensures
        r as int == fx_sin_spec(x as int),
        -FX_ONE <= r <= FX_ONE,
{
    proof {
        reveal(fx_sin_spec);
    }
    let neg = x < 0;
    let a: u64 = (if neg { -x } else { x }) as u64;
    let m: u64 = a % (FX_TAU as u64);
    let t: i64 = if (m as i64) > FX_PI { m as i64 - FX_TAU } else { m as i64 };
    let f: i64 = if t > FX_HALF_PI {
        FX_PI - t
    } else if t < -FX_HALF_PI {
        -FX_PI - t
    } else {
        t
    };
    let fneg = f < 0;
    let u: u64 = (if fneg { -f } else { f }) as u64;
    let p = sin_poly_exec(u);
    let v: i64 = if fneg { -p } else { p };
    let w: i64 = if neg { -v } else { v };
    if w > FX_ONE {
        FX_ONE
    } else if w < -FX_ONE {
        -FX_ONE
    } else {
        w
    }
}

/// Evaluate the cosine polynomial on a nonnegative reduced angle.
fn cos_poly_exec(u: u64) -> (r: i64)
    requires
        u <= FX_HALF_PI as u64,
    ensures
        r as int == cos_poly(u as int),
        -(2 * FX_ONE as int) <= r as int <= 2 * FX_ONE as int,
{
    proof {
        lemma_poly_power_bounds(u);
    }
    let s = FX_ONE as u64;
    let u2: u64 = (u * u) / s;
    proof {
        assert(u2 * u2 <= 161705 * 161705) by (nonlinear_arith)
            requires
                u2 <= 161705,
        {}
        lemma_div_is_ordered((u2 * u2) as int, 161705int * 161705, FX_ONE as int);
    }
    let u4: u64 = (u2 * u2) / s;
    proof {
        assert(u4 * u2 <= 399000 * 161705) by (nonlinear_arith)
            requires
                u4 <= 399000,
                u2 <= 161705,
        {}
        lemma_div_is_ordered((u4 * u2) as int, 399000int * 161705, FX_ONE as int);
    }
    let u6: u64 = (u4 * u2) / s;
    proof {
        assert(u6 * u2 <= 985000 * 161705) by (nonlinear_arith)
            requires
                u6 <= 985000,
                u2 <= 161705,
        {}
        lemma_div_is_ordered((u6 * u2) as int, 985000int * 161705, FX_ONE as int);
    }
    let u8: u64 = (u6 * u2) / s;
    let r: i64 = FX_ONE - (u2 / 2) as i64 + (u4 / 24) as i64 - (u6 / 720) as i64
        + (u8 / 40320) as i64;
    proof {
        lemma_div_is_ordered(u2 as int, 161705int * 161705, 2);
        lemma_div_is_ordered(u4 as int, 399000int * 161705, 24);
        lemma_div_is_ordered(u6 as int, 985000int * 161705, 720);
        lemma_div_is_ordered(u8 as int, 2431000int * 161705, 40320);
        lemma_div_pos_is_pos(u2 as int, 2);
        lemma_div_pos_is_pos(u4 as int, 24);
        lemma_div_pos_is_pos(u6 as int, 720);
        lemma_div_pos_is_pos(u8 as int, 40320);
    }
    r
}

/// The fixed-point cosine. The result is exactly `fx_cos_spec` and always
/// lies in the unit range; at angle zero it is exactly one.
pub fn fx_cos(x: i64) -> (r: i64)
    requires
        i64::MIN < x,
    ensures
        r as int == fx_cos_spec(x as int),
        -FX_ONE <= r <= FX_ONE,
{
    proof {
        reveal(fx_cos_spec);
    }
    let neg = x < 0;
    let a: u64 = (if neg { -x } else { x }) as u64;
    let m: u64 = a % (FX_TAU as u64);
    let t: i64 = if (m as i64) > FX_PI { FX_TAU - m as i64 } else { m as i64 };
    let v: i64 = if t > FX_HALF_PI {
        -cos_poly_exec((FX_PI - t) as u64)
    } else {
        cos_poly_exec(t as u64)
    };
    if v > FX_ONE {
        FX_ONE
    } else if v < -FX_ONE {
        -FX_ONE
    } else {
        v
    }
}

} // verus!
