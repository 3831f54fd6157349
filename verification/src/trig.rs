//! Fixed-point sine and cosine for body rotations.
//!
//! Angles are fixed-point radians. The angle is reduced into `[-pi, pi]` by
//! whole turns, folded into `[0, pi/2]` by symmetry, and evaluated there with
//! a truncated Taylor polynomial. The contracts state the exact integer value
//! computed, via [`reduce_spec`], [`sin_core_spec`] and [`cos_core_spec`].

use vstd::prelude::*;
use vstd::math::abs;
use crate::fx::{div_trunc, fx_mul, lemma_tdiv_bound_by, tdiv, FX_ONE};

verus! {

/// Fixed-point approximation of pi.
pub const PI_FX: i128 = 205887;

/// Fixed-point approximation of pi/2.
pub const HALF_PI_FX: i128 = 102944;

/// Fixed-point approximation of 2*pi. One more than `2 * PI_FX`, which keeps
/// the reduced range `[-PI_FX, PI_FX]` shorter than a whole turn.
pub const TWO_PI_FX: i128 = 411775;

/// The angle shifted by whole turns into `[-PI_FX, PI_FX]`.
pub open spec fn reduce_spec(theta: int) -> int
    decreases abs(theta),
{
    if theta > PI_FX as int {
        reduce_spec(theta - TWO_PI_FX as int)
    } else if theta < -PI_FX as int {
        reduce_spec(theta + TWO_PI_FX as int)
    } else {
        theta
    }
}

/// Fixed-point Taylor polynomial `x - x^3/6 + x^5/120 - x^7/5040`.
pub open spec fn sin_core_spec(x: int) -> int {
    let x2 = tdiv(x * x, FX_ONE as int);
    let x3 = tdiv(x2 * x, FX_ONE as int);
    let x5 = tdiv(x3 * x2, FX_ONE as int);
    let x7 = tdiv(x5 * x2, FX_ONE as int);
    x - tdiv(x3, 6) + tdiv(x5, 120) - tdiv(x7, 5040)
}

/// Fixed-point Taylor polynomial `1 - x^2/2 + x^4/24 - x^6/720`.
pub open spec fn cos_core_spec(x: int) -> int {
    let x2 = tdiv(x * x, FX_ONE as int);
    let x4 = tdiv(x2 * x2, FX_ONE as int);
    let x6 = tdiv(x4 * x2, FX_ONE as int);
    FX_ONE as int - tdiv(x2, 2) + tdiv(x4, 24) - tdiv(x6, 720)
}

/// Sine of an angle: the reduced angle folded by symmetry onto `[0, pi/2]`,
/// evaluated with [`sin_core_spec`].
pub open spec fn sin_spec(theta: int) -> int {
    let a = reduce_spec(theta);
    let b = abs(a) as int;
    let v = if b <= HALF_PI_FX as int {
        sin_core_spec(b)
    } else {
        sin_core_spec(PI_FX as int - b)
    };
    if a >= 0 {
        v
    } else {
        -v
    }
}

/// Cosine of an angle: the reduced angle folded by symmetry onto `[0, pi/2]`,
/// evaluated with [`cos_core_spec`].
pub open spec fn cos_spec(theta: int) -> int {
    let a = reduce_spec(theta);
    let b = abs(a) as int;
    if b <= HALF_PI_FX as int {
        cos_core_spec(b)
    } else {
        -cos_core_spec(PI_FX as int - b)
    }
}

/// Powers of the polynomial argument are nonnegative and bounded on
/// `[0, pi/2]`.
proof fn lemma_core_power_bounds(x: int)
    requires
        0 <= x <= HALF_PI_FX as int,
    ensures
        0 <= tdiv(x * x, FX_ONE as int) <= 162000,
        0 <= tdiv(tdiv(x * x, FX_ONE as int) * x, FX_ONE as int) <= 255000,
        0 <= tdiv(tdiv(x * x, FX_ONE as int) * tdiv(x * x, FX_ONE as int), FX_ONE as int)
            <= 401000,
        0 <= tdiv(
            tdiv(tdiv(x * x, FX_ONE as int) * x, FX_ONE as int) * tdiv(x * x, FX_ONE as int),
            FX_ONE as int,
        ) <= 631000,
        0 <= tdiv(
            tdiv(tdiv(x * x, FX_ONE as int) * tdiv(x * x, FX_ONE as int), FX_ONE as int) * tdiv(
                x * x,
                FX_ONE as int,
            ),
            FX_ONE as int,
        ) <= 992000,
        0 <= tdiv(
            tdiv(
                tdiv(tdiv(x * x, FX_ONE as int) * x, FX_ONE as int) * tdiv(x * x, FX_ONE as int),
                FX_ONE as int,
            ) * tdiv(x * x, FX_ONE as int),
            FX_ONE as int,
        ) <= 1560000,
    {
    let s = FX_ONE as int;
    assert(0 <= x * x <= 162000 * s) by (nonlinear_arith)
        requires
            0 <= x <= 102944,
            s == 65536,
    ;
    lemma_tdiv_bound_by(x * x, s, 162000);
    crate::fx::lemma_tdiv_nonneg(x * x, s);
    let x2 = tdiv(x * x, s);
    assert(0 <= x2 * x <= 255000 * s && 0 <= x2 * x2 <= 401000 * s) by (nonlinear_arith)
        requires
            0 <= x2 <= 162000,
            0 <= x <= 102944,
            s == 65536,
    ;
    lemma_tdiv_bound_by(x2 * x, s, 255000);
    crate::fx::lemma_tdiv_nonneg(x2 * x, s);
    let x3 = tdiv(x2 * x, s);
    lemma_tdiv_bound_by(x2 * x2, s, 401000);
    crate::fx::lemma_tdiv_nonneg(x2 * x2, s);
    let x4 = tdiv(x2 * x2, s);
    assert(0 <= x3 * x2 <= 631000 * s) by (nonlinear_arith)
        requires
            0 <= x3 <= 255000,
            0 <= x2 <= 162000,
            s == 65536,
    ;
    lemma_tdiv_bound_by(x3 * x2, s, 631000);
    crate::fx::lemma_tdiv_nonneg(x3 * x2, s);
    let x5 = tdiv(x3 * x2, s);
    assert(0 <= x4 * x2 <= 992000 * s) by (nonlinear_arith)
        requires
            0 <= x4 <= 401000,
            0 <= x2 <= 162000,
            s == 65536,
    ;
    lemma_tdiv_bound_by(x4 * x2, s, 992000);
    crate::fx::lemma_tdiv_nonneg(x4 * x2, s);
    assert(0 <= x5 * x2 <= 1560000 * s) by (nonlinear_arith)
        requires
            0 <= x5 <= 631000,
            0 <= x2 <= 162000,
            s == 65536,
    ;
    lemma_tdiv_bound_by(x5 * x2, s, 1560000);
    crate::fx::lemma_tdiv_nonneg(x5 * x2, s);
}

/// Taylor sine on the folded range.
fn sin_core(x: i128) -> (r: i128)
    requires
        0 <= x as int <= HALF_PI_FX as int,
    ensures
        r as int == sin_core_spec(x as int),
        abs(r as int) <= 0x2_0000,
{
    proof {
        lemma_core_power_bounds(x as int);
    }
    let x2 = fx_mul(x, x);
    let x3 = fx_mul(x2, x);
    let x5 = fx_mul(x3, x2);
    let x7 = fx_mul(x5, x2);
    proof {
        lemma_tdiv_bound_by(x3 as int, 6, 42500);
        crate::fx::lemma_tdiv_nonneg(x3 as int, 6);
        lemma_tdiv_bound_by(x5 as int, 120, 5259);
        crate::fx::lemma_tdiv_nonneg(x5 as int, 120);
        lemma_tdiv_bound_by(x7 as int, 5040, 310);
        crate::fx::lemma_tdiv_nonneg(x7 as int, 5040);
    }
    x - div_trunc(x3, 6) + div_trunc(x5, 120) - div_trunc(x7, 5040)
}

/// Taylor cosine on the folded range.
fn cos_core(x: i128) -> (r: i128)
    requires
        0 <= x as int <= HALF_PI_FX as int,
    ensures
        r as int == cos_core_spec(x as int),
        abs(r as int) <= 0x2_0000,
{
    proof {
        lemma_core_power_bounds(x as int);
    }
    let x2 = fx_mul(x, x);
    let x4 = fx_mul(x2, x2);
    let x6 = fx_mul(x4, x2);
    proof {
        lemma_tdiv_bound_by(x2 as int, 2, 81000);
        crate::fx::lemma_tdiv_nonneg(x2 as int, 2);
        lemma_tdiv_bound_by(x4 as int, 24, 16709);
        crate::fx::lemma_tdiv_nonneg(x4 as int, 24);
        lemma_tdiv_bound_by(x6 as int, 720, 1378);
        crate::fx::lemma_tdiv_nonneg(x6 as int, 720);
    }
    FX_ONE - div_trunc(x2, 2) + div_trunc(x4, 24) - div_trunc(x6, 720)
}

/// The angle shifted by whole turns into `[-PI_FX, PI_FX]`.
fn reduce(theta: i128) -> (r: i128)
    requires
        abs(theta as int) <= 0x1_0000_0000_0000,
    ensures
        r as int == reduce_spec(theta as int),
        -PI_FX <= r <= PI_FX,
{
    let mut a = theta;
    while a > PI_FX
        invariant
            reduce_spec(a as int) == reduce_spec(theta as int),
            -0x1_0001_0000_0000 <= a <= 0x1_0000_0000_0000,
        decreases a + 0x1_0001_0000_0000,
    {
        a = a - TWO_PI_FX;
    }
    while a < -PI_FX
        invariant
            reduce_spec(a as int) == reduce_spec(theta as int),
            -0x1_0001_0000_0000 <= a <= 0x1_0000_0000_0000,
            a <= PI_FX,
        decreases 0x1_0001_0000_0000 - a,
    {
        a = a + TWO_PI_FX;
    }
    a
}

/// Fixed-point sine of a fixed-point angle in radians.
pub fn sin_fx(theta: i128) -> (r: i128)
    requires
        abs(theta as int) <= 0x1_0000_0000_0000,
    ensures
        r as int == sin_spec(theta as int),
        abs(r as int) <= 0x2_0000,
{
    let a = reduce(theta);
    let b = if a < 0 {
        -a
    } else {
        a
    };
    let v = if b <= HALF_PI_FX {
        sin_core(b)
    } else {
        sin_core(PI_FX - b)
    };
    if a >= 0 {
        v
    } else {
        -v
    }
}

/// Fixed-point cosine of a fixed-point angle in radians.
pub fn cos_fx(theta: i128) -> (r: i128)
    requires
        abs(theta as int) <= 0x1_0000_0000_0000,
    ensures
        r as int == cos_spec(theta as int),
        abs(r as int) <= 0x2_0000,
{
    let a = reduce(theta);
    let b = if a < 0 {
        -a
    } else {
        a
    };
    if b <= HALF_PI_FX {
        cos_core(b)
    } else {
        -cos_core(PI_FX - b)
    }
}

} // verus!
