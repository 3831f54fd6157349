//! 2D fixed-point vectors: positions, normals, velocities.

use vstd::prelude::*;
use vstd::math::abs;
use crate::fx::{tdiv, FX_ONE};

verus! {

/// A 2D vector whose components are fixed-point scalars.
#[derive(Clone, Copy, PartialEq, Eq, Structural, Debug)]
pub struct Vec2 {
    pub x: i128,
    pub y: i128,
}

impl Vec2 {
    /// Both components have magnitude at most `m`.
    pub open spec fn bounded(self, m: int) -> bool {
        abs(self.x as int) <= m && abs(self.y as int) <= m
    }

    /// Scaled dot product: the fixed-point value of `self . other`.
    pub open spec fn dot_spec(self, other: Vec2) -> int {
        tdiv(self.x * other.x + self.y * other.y, FX_ONE as int)
    }

    /// Unscaled dot product: the plain integer sum of component products.
    pub open spec fn dot_raw_spec(self, other: Vec2) -> int {
        self.x * other.x + self.y * other.y
    }

    /// Scaled 2D cross product: the fixed-point value of
    /// `self.x * other.y - self.y * other.x`.
    pub open spec fn cross_spec(self, other: Vec2) -> int {
        tdiv(self.x * other.y - self.y * other.x, FX_ONE as int)
    }

    pub fn new(x: i128, y: i128) -> (r: Vec2)
        ensures
            r == (Vec2 { x, y }),
    {
        Vec2 { x, y }
    }

    pub fn zero() -> (r: Vec2)
        ensures
            r == (Vec2 { x: 0, y: 0 }),
    {
        Vec2 { x: 0, y: 0 }
    }

    /// Componentwise sum.
    pub fn plus(self, other: Vec2) -> (r: Vec2)
        requires
            self.bounded(0x1000_0000_0000_0000_0000_0000_0000),
            other.bounded(0x1000_0000_0000_0000_0000_0000_0000),
        ensures
            r.x as int == self.x + other.x,
            r.y as int == self.y + other.y,
    {
        Vec2 { x: self.x + other.x, y: self.y + other.y }
    }

    /// Componentwise difference.
    pub fn minus(self, other: Vec2) -> (r: Vec2)
        requires
            self.bounded(0x1000_0000_0000_0000_0000_0000_0000),
            other.bounded(0x1000_0000_0000_0000_0000_0000_0000),
        ensures
            r.x as int == self.x - other.x,
            r.y as int == self.y - other.y,
    {
        Vec2 { x: self.x - other.x, y: self.y - other.y }
    }

    /// Componentwise negation.
    pub fn neg(self) -> (r: Vec2)
        requires
            self.bounded(0x1000_0000_0000_0000_0000_0000_0000),
        ensures
            r.x as int == -self.x,
            r.y as int == -self.y,
    {
        Vec2 { x: -self.x, y: -self.y }
    }

    /// The left perpendicular `(-y, x)`: the tangent of a normal.
    pub fn perp(self) -> (r: Vec2)
        requires
            self.bounded(0x1000_0000_0000_0000_0000_0000_0000),
        ensures
            r.x as int == -self.y,
            r.y as int == self.x,
    {
        Vec2 { x: -self.y, y: self.x }
    }

    /// Multiplication by a fixed-point scalar.
    pub fn scaled(self, k: i128) -> (r: Vec2)
        requires
            self.bounded(0x1000_0000_0000_0000),
            abs(k as int) <= 0x1000_0000_0000_0000,
        ensures
            r.x as int == tdiv(self.x * k, FX_ONE as int),
            r.y as int == tdiv(self.y * k, FX_ONE as int),
    {
        Vec2 { x: crate::fx::fx_mul(self.x, k), y: crate::fx::fx_mul(self.y, k) }
    }

    /// Fixed-point dot product.
    pub fn dot(self, other: Vec2) -> (r: i128)
        requires
            self.bounded(0x1000_0000_0000_0000),
            other.bounded(0x1000_0000_0000_0000),
        ensures
            r as int == self.dot_spec(other),
    {
        proof {
            lemma_product_pair_bound(
                self.x as int,
                self.y as int,
                other.x as int,
                other.y as int,
                0x1000_0000_0000_0000,
            );
        }
        let s = self.x * other.x + self.y * other.y;
        crate::fx::div_trunc(s, FX_ONE)
    }

    /// Unscaled dot product, for comparisons of projections.
    pub fn dot_raw(self, other: Vec2) -> (r: i128)
        requires
            self.bounded(0x1000_0000_0000_0000),
            other.bounded(0x1000_0000_0000_0000),
        ensures
            r as int == self.dot_raw_spec(other),
    {
        proof {
            lemma_product_pair_bound(
                self.x as int,
                self.y as int,
                other.x as int,
                other.y as int,
                0x1000_0000_0000_0000,
            );
        }
        self.x * other.x + self.y * other.y
    }

    /// Fixed-point 2D cross product.
    pub fn cross(self, other: Vec2) -> (r: i128)
        requires
            self.bounded(0x1000_0000_0000_0000),
            other.bounded(0x1000_0000_0000_0000),
        ensures
            r as int == self.cross_spec(other),
    {
        proof {
            lemma_product_pair_bound(
                self.x as int,
                self.y as int,
                other.y as int,
                other.x as int,
                0x1000_0000_0000_0000,
            );
        }
        let s = self.x * other.y - self.y * other.x;
        crate::fx::div_trunc(s, FX_ONE)
    }
}

/// A dot product of bounded vectors is bounded by twice the product of the
/// bounds.
pub proof fn lemma_dot_spec_bound(a: Vec2, b: Vec2, ma: int, mb: int)
    requires
        0 <= ma,
        0 <= mb,
        a.bounded(ma),
        b.bounded(mb),
    ensures
        abs(a.dot_spec(b)) <= 2 * ma * mb,
        abs(a.dot_raw_spec(b)) <= 2 * ma * mb,
{
    let s = a.x * b.x + a.y * b.y;
    assert(abs(s) <= 2 * ma * mb) by (nonlinear_arith)
        requires
            s == a.x * b.x + a.y * b.y,
            0 <= ma,
            0 <= mb,
            abs(a.x as int) <= ma,
            abs(a.y as int) <= ma,
            abs(b.x as int) <= mb,
            abs(b.y as int) <= mb,
    ;
    crate::fx::lemma_tdiv_mag(s, FX_ONE as int);
}

/// A dot product of bounded vectors, with its rescaling accounted for: if
/// `2 * ma * mb <= c * FX_ONE` then the fixed-point dot is bounded by `c`.
pub proof fn lemma_dot_spec_bound_div(a: Vec2, b: Vec2, ma: int, mb: int, c: int)
    requires
        0 <= ma,
        0 <= mb,
        a.bounded(ma),
        b.bounded(mb),
        2 * ma * mb <= c * FX_ONE as int,
    ensures
        abs(a.dot_raw_spec(b)) <= 2 * ma * mb,
        abs(a.dot_spec(b)) <= c,
{
    lemma_dot_spec_bound(a, b, ma, mb);
    crate::fx::lemma_tdiv_bound_by(a.x * b.x + a.y * b.y, FX_ONE as int, c);
}

/// Bounds the two products that make up a dot or cross product.
pub proof fn lemma_product_pair_bound(a: int, b: int, c: int, d: int, m: int)
    requires
        0 <= m,
        abs(a) <= m,
        abs(b) <= m,
        abs(c) <= m,
        abs(d) <= m,
    ensures
        abs(a * c) <= m * m,
        abs(b * d) <= m * m,
    {
    assert(abs(a * c) <= m * m && abs(b * d) <= m * m) by (nonlinear_arith)
        requires
            0 <= m,
            abs(a) <= m,
            abs(b) <= m,
            abs(c) <= m,
            abs(d) <= m,
    ;
}

} // verus!
