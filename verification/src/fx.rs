//! Exact fixed-point arithmetic over `i128`.
//!
//! A scalar counts units of `1 / FX_ONE`. Multiplication and division rescale
//! with truncating (round-toward-zero) integer division, the semantics of
//! Rust's `/` operator, captured by the spec function [`tdiv`].

use vstd::prelude::*;
use vstd::arithmetic::div_mod::{
    lemma_div_is_ordered, lemma_div_multiples_vanish, lemma_div_nonincreasing,
    lemma_div_pos_is_pos,
};
use vstd::math::abs;

verus! {

/// Fixed-point units per 1.0: every scalar counts 1/65536ths.
pub const FX_ONE: i128 = 65536;

/// Magnitude bound under which the engine keeps every stored scalar.
pub const FX_LIM: i128 = 0x1_0000_0000_0000;

/// Truncating (round-toward-zero) integer division: what `/` computes on
/// Rust's signed machine integers.
pub open spec fn tdiv(x: int, d: int) -> int
    recommends
        d != 0,
{
    if x == 0 {
        0
    } else if x > 0 && d > 0 {
        x / d
    } else if x < 0 && d < 0 {
        (x * -1) / (d * -1)
    } else if x < 0 {
        ((x * -1) / d) * -1
    } else {
        (x / (d * -1)) * -1
    }
}

/// The magnitude of a truncating quotient is the floor quotient of the
/// magnitudes, so it never exceeds the magnitude of the dividend.
pub proof fn lemma_tdiv_mag(x: int, d: int)
    requires
        d != 0,
    ensures
        abs(tdiv(x, d)) == abs(x) / abs(d),
        abs(tdiv(x, d)) <= abs(x),
{
    if x == 0 {
        lemma_div_pos_is_pos(0, abs(d) as int);
        lemma_div_nonincreasing(0, abs(d) as int);
        assert(abs(x) as int / abs(d) as int <= 0);
    } else if x > 0 && d > 0 {
        lemma_div_pos_is_pos(x, d);
        lemma_div_nonincreasing(x, d);
    } else if x < 0 && d < 0 {
        lemma_div_pos_is_pos(x * -1, d * -1);
        lemma_div_nonincreasing(x * -1, d * -1);
    } else if x < 0 {
        lemma_div_pos_is_pos(x * -1, d);
        lemma_div_nonincreasing(x * -1, d);
    } else {
        lemma_div_pos_is_pos(x, d * -1);
        lemma_div_nonincreasing(x, d * -1);
    }
}

/// Dividing a multiple of a positive `d` by `d` is exact.
pub proof fn lemma_tdiv_exact(x: int, d: int)
    requires
        d > 0,
    ensures
        tdiv(x * d, d) == x,
{
    if x == 0 {
        assert(x * d == 0) by (nonlinear_arith)
            requires
                x == 0,
        ;
    } else if x > 0 {
        assert(x * d > 0) by (nonlinear_arith)
            requires
                x > 0,
                d > 0,
        ;
        lemma_div_multiples_vanish(x, d);
        assert(d * x == x * d) by (nonlinear_arith);
    } else {
        assert(x * d < 0) by (nonlinear_arith)
            requires
                x < 0,
                d > 0,
        ;
        assert((x * d) * -1 == (x * -1) * d) by (nonlinear_arith);
        lemma_div_multiples_vanish(x * -1, d);
        assert(d * (x * -1) == (x * -1) * d) by (nonlinear_arith);
    }
}

/// A dividend bounded by `c * d` gives a quotient bounded by `c`.
pub proof fn lemma_tdiv_bound_by(x: int, d: int, c: int)
    requires
        d > 0,
        abs(x) <= c * d,
    ensures
        abs(tdiv(x, d)) <= c,
{
    lemma_tdiv_mag(x, d);
    lemma_div_is_ordered(abs(x) as int, c * d, d);
    lemma_div_multiples_vanish(c, d);
    assert(d * c == c * d) by (nonlinear_arith);
}

/// A truncating quotient of a nonnegative dividend by a positive divisor is
/// nonnegative and at most the dividend.
pub proof fn lemma_tdiv_nonneg(x: int, d: int)
    requires
        x >= 0,
        d > 0,
    ensures
        0 <= tdiv(x, d) <= x,
{
    lemma_tdiv_mag(x, d);
    if x > 0 {
        lemma_div_pos_is_pos(x, d);
    }
}

/// Rescaling a bounded value by a factor of at most one (in fixed-point
/// units) keeps the bound.
pub proof fn lemma_fx_scale_bound(v: int, k: int, m: int)
    requires
        abs(v) <= m,
        0 <= k <= FX_ONE as int,
        m >= 0,
    ensures
        abs(v * k) <= m * FX_ONE as int,
        abs(tdiv(v * k, FX_ONE as int)) <= m,
{
    assert(abs(v * k) <= m * FX_ONE as int) by (nonlinear_arith)
        requires
            abs(v) <= m,
            0 <= k <= FX_ONE as int,
            m >= 0,
    ;
    lemma_tdiv_bound_by(v * k, FX_ONE as int, m);
}

/// A rescaled product of bounded factors is bounded: if `|v| <= mv`,
/// `|k| <= mk` and `mv * mk <= c * FX_ONE`, then `|v * k / FX_ONE| <= c`.
pub proof fn lemma_fx_mul_bound(v: int, k: int, mv: int, mk: int, c: int)
    requires
        abs(v) <= mv,
        abs(k) <= mk,
        0 <= mv,
        0 <= mk,
        mv * mk <= c * FX_ONE as int,
    ensures
        abs(v * k) <= mv * mk,
        abs(tdiv(v * k, FX_ONE as int)) <= c,
{
    assert(abs(v * k) <= mv * mk) by (nonlinear_arith)
        requires
            abs(v) <= mv,
            abs(k) <= mk,
            0 <= mv,
            0 <= mk,
    ;
    lemma_tdiv_bound_by(v * k, FX_ONE as int, c);
}

/// Rescaling by a factor in [0, 1] (in fixed-point units) interpolates: the
/// result lies between zero and the value.
pub proof fn lemma_fx_interp(v: int, k: int)
    requires
        0 <= k <= FX_ONE as int,
    ensures
        v >= 0 ==> 0 <= tdiv(v * k, FX_ONE as int) <= v,
        v < 0 ==> v <= tdiv(v * k, FX_ONE as int) <= 0,
{
    if v >= 0 {
        assert(v * k >= 0) by (nonlinear_arith)
            requires
                v >= 0,
                k >= 0,
        ;
        lemma_tdiv_nonneg(v * k, FX_ONE as int);
        lemma_fx_scale_bound(v, k, v);
    } else {
        assert(v * k <= 0) by (nonlinear_arith)
            requires
                v < 0,
                k >= 0,
        ;
        lemma_fx_scale_bound(v, k, -v);
        if v * k < 0 {
            assert((v * k) * -1 >= 0) by (nonlinear_arith)
                requires
                    v * k < 0,
            ;
            lemma_div_pos_is_pos((v * k) * -1, FX_ONE as int);
        }
    }
}

/// Floor of the square root, as a recursive walk up from zero.
pub open spec fn sqrt_floor(n: int) -> int
    recommends
        n >= 0,
    decreases n,
{
    if n <= 0 {
        0
    } else {
        let p = sqrt_floor(n - 1);
        if (p + 1) * (p + 1) <= n {
            p + 1
        } else {
            p
        }
    }
}

/// `sqrt_floor(n)` is the unique nonnegative root with
/// `r * r <= n < (r + 1) * (r + 1)`.
pub proof fn lemma_sqrt_floor(n: int)
    requires
        n >= 0,
    ensures
        sqrt_floor(n) >= 0,
        sqrt_floor(n) * sqrt_floor(n) <= n,
        n < (sqrt_floor(n) + 1) * (sqrt_floor(n) + 1),
    decreases n,
{
    if n == 0 {
    } else {
        lemma_sqrt_floor(n - 1);
        let p = sqrt_floor(n - 1);
        if (p + 1) * (p + 1) <= n {
            assert(n < (p + 1 + 1) * (p + 1 + 1)) by (nonlinear_arith)
                requires
                    p >= 0,
                    n - 1 < (p + 1) * (p + 1),
                    (p + 1) * (p + 1) <= n,
            ;
        }
    }
}

/// Any `r` satisfying the square-root bracket equals `sqrt_floor(n)`.
pub proof fn lemma_sqrt_floor_unique(n: int, r: int)
    requires
        n >= 0,
        r >= 0,
        r * r <= n,
        n < (r + 1) * (r + 1),
    ensures
        r == sqrt_floor(n),
{
    lemma_sqrt_floor(n);
    let s = sqrt_floor(n);
    assert(r == s) by (nonlinear_arith)
        requires
            r >= 0,
            s >= 0,
            r * r <= n,
            n < (r + 1) * (r + 1),
            s * s <= n,
            n < (s + 1) * (s + 1),
    ;
}

/// The square root floor is monotone.
pub proof fn lemma_sqrt_floor_mono(a: int, b: int)
    requires
        0 <= a <= b,
    ensures
        sqrt_floor(a) <= sqrt_floor(b),
{
    lemma_sqrt_floor(a);
    lemma_sqrt_floor(b);
    let sa = sqrt_floor(a);
    let sb = sqrt_floor(b);
    assert(sa <= sb) by (nonlinear_arith)
        requires
            sa >= 0,
            sb >= 0,
            sa * sa <= a,
            b < (sb + 1) * (sb + 1),
            a <= b,
    ;
}

/// The square root of a perfect square is its root.
pub proof fn lemma_sqrt_floor_square(x: int)
    requires
        x >= 0,
    ensures
        sqrt_floor(x * x) == x,
{
    assert(x * x >= 0 && x * x < (x + 1) * (x + 1)) by (nonlinear_arith)
        requires
            x >= 0,
    ;
    lemma_sqrt_floor_unique(x * x, x);
}

/// Truncating division of two `i128` values.
pub fn div_trunc(a: i128, b: i128) -> (r: i128)
    requires
        b != 0,
        !(a == i128::MIN && b == -1),
    ensures
        r as int == tdiv(a as int, b as int),
{
    proof {
        lemma_tdiv_mag(a as int, b as int);
        let t = tdiv(a as int, b as int);
        if b == 1 {
            lemma_tdiv_exact(a as int, 1);
            assert((a as int) * 1 == a as int) by (nonlinear_arith);
            assert(t == a as int);
        } else if b == -1 {
            assert(abs(a as int) <= i128::MAX as int);
            assert(i128::MIN as int <= t <= i128::MAX as int);
        } else {
            assert(abs(b as int) >= 2);
            vstd::arithmetic::div_mod::lemma_div_is_ordered_by_denominator(
                abs(a as int) as int,
                2,
                abs(b as int) as int,
            );
            lemma_div_is_ordered(
                abs(a as int) as int,
                0x8000_0000_0000_0000_0000_0000_0000_0000,
                2,
            );
            assert(abs(t) <= 0x4000_0000_0000_0000_0000_0000_0000_0000);
        }
    }
    match a.checked_div(b) {
        Some(q) => q,
        None => unreached(),
    }
}

/// Fixed-point product: `a * b` rescaled by `FX_ONE`, truncated toward zero.
pub fn fx_mul(a: i128, b: i128) -> (r: i128)
    requires
        abs(a as int) <= 0x1000_0000_0000_0000,
        abs(b as int) <= 0x1000_0000_0000_0000,
    ensures
        r as int == tdiv(a as int * b as int, FX_ONE as int),
{
    proof {
        assert(abs(a as int * b as int) <= 0x1000_0000_0000_0000 * 0x1000_0000_0000_0000)
            by (nonlinear_arith)
            requires
                abs(a as int) <= 0x1000_0000_0000_0000,
                abs(b as int) <= 0x1000_0000_0000_0000,
        ;
    }
    let p = a * b;
    div_trunc(p, FX_ONE)
}

/// Fixed-point quotient: `a / b` as a fixed-point scalar, truncated toward
/// zero.
pub fn fx_div(a: i128, b: i128) -> (r: i128)
    requires
        b != 0,
        abs(a as int) <= 0x10_0000_0000_0000_0000_0000_0000,
    ensures
        r as int == tdiv(a as int * FX_ONE as int, b as int),
{
    let p = a * FX_ONE;
    proof {
        lemma_tdiv_mag(p as int, b as int);
    }
    div_trunc(p, b)
}

/// Floor square root of a `u128`.
pub fn isqrt(n: u128) -> (r: u128)
    requires
        n <= 0x1000_0000_0000_0000_0000_0000_0000,
    ensures
        r as int == sqrt_floor(n as int),
{
    let mut lo: u128 = 0;
    let mut hi: u128 = 0x80_0000_0000_0000;
    proof {
        assert((hi as int) * (hi as int) > n as int);
    }
    while lo + 1 < hi
        invariant
            n <= 0x1000_0000_0000_0000_0000_0000_0000,
            lo < hi,
            hi <= 0x80_0000_0000_0000,
            (lo as int) * (lo as int) <= n as int,
            (n as int) < (hi as int) * (hi as int),
        decreases hi - lo,
    {
        let mid = lo + (hi - lo) / 2;
        proof {
            assert(lo < mid < hi);
            assert((mid as int) * (mid as int) < 0x1_0000_0000_0000_0000_0000_0000_0000)
                by (nonlinear_arith)
                requires
                    mid < 0x80_0000_0000_0000,
            ;
        }
        if mid * mid <= n {
            lo = mid;
        } else {
            hi = mid;
        }
    }
    proof {
        assert(hi == lo + 1);
        lemma_sqrt_floor_unique(n as int, lo as int);
    }
    lo
}

} // verus!
