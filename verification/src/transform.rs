//! 2D affine transforms in fixed point: translation, rotation and scaling,
//! composed and applied to points exactly.

use vstd::prelude::*;
use vstd::math::abs;
use crate::fx::{div_trunc, fx_mul, lemma_tdiv_bound_by, lemma_tdiv_mag, tdiv, FX_ONE};
use crate::vec2::Vec2;

verus! {

/// An affine map `p -> M p + t` with a fixed-point 2x2 matrix `M` and a
/// translation `t`.
#[derive(Clone, Copy, PartialEq, Eq, Structural, Debug)]
pub struct Transform {
    pub m00: i128,
    pub m01: i128,
    pub m10: i128,
    pub m11: i128,
    pub tx: i128,
    pub ty: i128,
}

/// A transform's entries as a tuple of plain integers
/// `(m00, m01, m10, m11, tx, ty)`.
pub open spec fn tuple_of(t: Transform) -> (int, int, int, int, int, int) {
    (t.m00 as int, t.m01 as int, t.m10 as int, t.m11 as int, t.tx as int, t.ty as int)
}

/// Entries of translation, rotation and scaling composed:
/// `[c -s; s c] . diag(sx, sy)` with translation `(px, py)`.
pub open spec fn pose_entries_spec(position: Vec2, c: int, s: int, scale: Vec2) -> (
    int,
    int,
    int,
    int,
    int,
    int,
) {
    (
        tdiv(c * scale.x, FX_ONE as int),
        tdiv(-(s * scale.y), FX_ONE as int),
        tdiv(s * scale.x, FX_ONE as int),
        tdiv(c * scale.y, FX_ONE as int),
        position.x as int,
        position.y as int,
    )
}

/// Entries of the composition `a . b` of two affine maps.
pub open spec fn compose_entries_spec(
    a: (int, int, int, int, int, int),
    b: (int, int, int, int, int, int),
) -> (int, int, int, int, int, int) {
    (
        tdiv(a.0 * b.0 + a.1 * b.2, FX_ONE as int),
        tdiv(a.0 * b.1 + a.1 * b.3, FX_ONE as int),
        tdiv(a.2 * b.0 + a.3 * b.2, FX_ONE as int),
        tdiv(a.2 * b.1 + a.3 * b.3, FX_ONE as int),
        tdiv(a.0 * b.4 + a.1 * b.5, FX_ONE as int) + a.4,
        tdiv(a.2 * b.4 + a.3 * b.5, FX_ONE as int) + a.5,
    )
}

/// X coordinate of an affine map applied to a point.
pub open spec fn apply_x_spec(t: (int, int, int, int, int, int), p: Vec2) -> int {
    tdiv(t.0 * p.x + t.1 * p.y, FX_ONE as int) + t.4
}

/// Y coordinate of an affine map applied to a point.
pub open spec fn apply_y_spec(t: (int, int, int, int, int, int), p: Vec2) -> int {
    tdiv(t.2 * p.x + t.3 * p.y, FX_ONE as int) + t.5
}

impl Transform {
    /// Bounds of a single-pose transform: moderate rotation-scale entries and
    /// a bounded translation.
    pub open spec fn pose_bounded(self) -> bool {
        &&& abs(self.m00 as int) <= 0x20_0000
        &&& abs(self.m01 as int) <= 0x20_0000
        &&& abs(self.m10 as int) <= 0x20_0000
        &&& abs(self.m11 as int) <= 0x20_0000
        &&& abs(self.tx as int) <= 0x100_0000_0000
        &&& abs(self.ty as int) <= 0x100_0000_0000
    }

    /// Bounds of a composition of two pose transforms.
    pub open spec fn world_bounded(self) -> bool {
        &&& abs(self.m00 as int) <= 0x1000_0000
        &&& abs(self.m01 as int) <= 0x1000_0000
        &&& abs(self.m10 as int) <= 0x1000_0000
        &&& abs(self.m11 as int) <= 0x1000_0000
        &&& abs(self.tx as int) <= 0x8000_0000_0000
        &&& abs(self.ty as int) <= 0x8000_0000_0000
    }

    /// The identity map.
    pub fn identity() -> (r: Transform)
        ensures
            tuple_of(r) == (FX_ONE as int, 0int, 0int, FX_ONE as int, 0int, 0int),
            r.pose_bounded(),
    {
        Transform { m00: FX_ONE, m01: 0, m10: 0, m11: FX_ONE, tx: 0, ty: 0 }
    }

    /// Translation, rotation and scaling as one map, from the rotation's
    /// cosine and sine.
    pub fn from_pose(position: Vec2, rot_cos: i128, rot_sin: i128, scale: Vec2) -> (r: Transform)
        requires
            abs(rot_cos as int) <= 0x2_0000,
            abs(rot_sin as int) <= 0x2_0000,
            scale.bounded(0x10_0000),
            position.bounded(0x100_0000_0000),
        ensures
            tuple_of(r) == pose_entries_spec(position, rot_cos as int, rot_sin as int, scale),
            r.pose_bounded(),
    {
        proof {
            let lm: int = 0x20_0000;
            assert(abs(rot_cos as int * scale.x as int) <= lm * FX_ONE as int && abs(
                -(rot_sin as int * scale.y as int),
            ) <= lm * FX_ONE as int && abs(rot_sin as int * scale.x as int) <= lm * FX_ONE as int
                && abs(rot_cos as int * scale.y as int) <= lm * FX_ONE as int
                && -(rot_sin as int) * scale.y as int == -(rot_sin as int * scale.y as int))
                by (nonlinear_arith)
                requires
                    abs(rot_cos as int) <= 0x2_0000,
                    abs(rot_sin as int) <= 0x2_0000,
                    abs(scale.x as int) <= 0x10_0000,
                    abs(scale.y as int) <= 0x10_0000,
                    lm == 0x20_0000,
                    FX_ONE as int == 0x1_0000,
            ;
            lemma_tdiv_bound_by(rot_cos as int * scale.x as int, FX_ONE as int, 0x20_0000);
            lemma_tdiv_bound_by(-(rot_sin as int * scale.y as int), FX_ONE as int, 0x20_0000);
            lemma_tdiv_bound_by(rot_sin as int * scale.x as int, FX_ONE as int, 0x20_0000);
            lemma_tdiv_bound_by(rot_cos as int * scale.y as int, FX_ONE as int, 0x20_0000);
        }
        Transform {
            m00: fx_mul(rot_cos, scale.x),
            m01: fx_mul(-rot_sin, scale.y),
            m10: fx_mul(rot_sin, scale.x),
            m11: fx_mul(rot_cos, scale.y),
            tx: position.x,
            ty: position.y,
        }
    }

    /// The composition `self . other`: apply `other` first, then `self`.
    pub fn compose(&self, other: &Transform) -> (r: Transform)
        requires
            self.pose_bounded(),
            other.pose_bounded(),
        ensures
            tuple_of(r) == compose_entries_spec(tuple_of(*self), tuple_of(*other)),
            r.world_bounded(),
    {
        proof {
            lemma_compose_products(tuple_of(*self), tuple_of(*other));
            let lm: int = 0x100_0000_0000;
            crate::vec2::lemma_product_pair_bound(
                self.m00 as int,
                self.m01 as int,
                other.m00 as int,
                other.m10 as int,
                lm,
            );
            crate::vec2::lemma_product_pair_bound(
                self.m00 as int,
                self.m01 as int,
                other.m01 as int,
                other.m11 as int,
                lm,
            );
            crate::vec2::lemma_product_pair_bound(
                self.m10 as int,
                self.m11 as int,
                other.m00 as int,
                other.m10 as int,
                lm,
            );
            crate::vec2::lemma_product_pair_bound(
                self.m10 as int,
                self.m11 as int,
                other.m01 as int,
                other.m11 as int,
                lm,
            );
            crate::vec2::lemma_product_pair_bound(
                self.m00 as int,
                self.m01 as int,
                other.tx as int,
                other.ty as int,
                lm,
            );
            crate::vec2::lemma_product_pair_bound(
                self.m10 as int,
                self.m11 as int,
                other.tx as int,
                other.ty as int,
                lm,
            );
        }
        let m00 = div_trunc(self.m00 * other.m00 + self.m01 * other.m10, FX_ONE);
        let m01 = div_trunc(self.m00 * other.m01 + self.m01 * other.m11, FX_ONE);
        let m10 = div_trunc(self.m10 * other.m00 + self.m11 * other.m10, FX_ONE);
        let m11 = div_trunc(self.m10 * other.m01 + self.m11 * other.m11, FX_ONE);
        let tx = div_trunc(self.m00 * other.tx + self.m01 * other.ty, FX_ONE) + self.tx;
        let ty = div_trunc(self.m10 * other.tx + self.m11 * other.ty, FX_ONE) + self.ty;
        Transform { m00, m01, m10, m11, tx, ty }
    }

    /// The map applied to a point.
    pub fn apply(&self, p: Vec2) -> (r: Vec2)
        requires
            self.world_bounded(),
            p.bounded(0x10_0000_0000),
        ensures
            r.x as int == apply_x_spec(tuple_of(*self), p),
            r.y as int == apply_y_spec(tuple_of(*self), p),
            r.bounded(0x4_0000_0000_0000),
    {
        proof {
            lemma_apply_bounds(tuple_of(*self), p);
            crate::vec2::lemma_product_pair_bound(
                self.m00 as int,
                self.m01 as int,
                p.x as int,
                p.y as int,
                0x10_0000_0000,
            );
            crate::vec2::lemma_product_pair_bound(
                self.m10 as int,
                self.m11 as int,
                p.x as int,
                p.y as int,
                0x10_0000_0000,
            );
        }
        let x = div_trunc(self.m00 * p.x + self.m01 * p.y, FX_ONE) + self.tx;
        let y = div_trunc(self.m10 * p.x + self.m11 * p.y, FX_ONE) + self.ty;
        Vec2 { x, y }
    }
}

/// Product bounds for the composition of two pose transforms.
proof fn lemma_compose_products(a: (int, int, int, int, int, int), b: (
    int,
    int,
    int,
    int,
    int,
    int,
))
    requires
        abs(a.0) <= 0x20_0000,
        abs(a.1) <= 0x20_0000,
        abs(a.2) <= 0x20_0000,
        abs(a.3) <= 0x20_0000,
        abs(a.4) <= 0x100_0000_0000,
        abs(a.5) <= 0x100_0000_0000,
        abs(b.0) <= 0x20_0000,
        abs(b.1) <= 0x20_0000,
        abs(b.2) <= 0x20_0000,
        abs(b.3) <= 0x20_0000,
        abs(b.4) <= 0x100_0000_0000,
        abs(b.5) <= 0x100_0000_0000,
    ensures
        abs(tdiv(a.0 * b.0 + a.1 * b.2, FX_ONE as int)) <= 0x1000_0000,
        abs(tdiv(a.0 * b.1 + a.1 * b.3, FX_ONE as int)) <= 0x1000_0000,
        abs(tdiv(a.2 * b.0 + a.3 * b.2, FX_ONE as int)) <= 0x1000_0000,
        abs(tdiv(a.2 * b.1 + a.3 * b.3, FX_ONE as int)) <= 0x1000_0000,
        abs(tdiv(a.0 * b.4 + a.1 * b.5, FX_ONE as int)) <= 0x4000_0000_0000,
        abs(tdiv(a.2 * b.4 + a.3 * b.5, FX_ONE as int)) <= 0x4000_0000_0000,
        abs(a.0 * b.0 + a.1 * b.2) <= 0x1000_0000_0000,
        abs(a.0 * b.1 + a.1 * b.3) <= 0x1000_0000_0000,
        abs(a.2 * b.0 + a.3 * b.2) <= 0x1000_0000_0000,
        abs(a.2 * b.1 + a.3 * b.3) <= 0x1000_0000_0000,
        abs(a.0 * b.4 + a.1 * b.5) <= 0x400_0000_0000_0000_0000,
        abs(a.2 * b.4 + a.3 * b.5) <= 0x400_0000_0000_0000_0000,
{
    assert(abs(a.0 * b.0 + a.1 * b.2) <= 0x1000_0000 * FX_ONE as int) by (nonlinear_arith)
        requires
            abs(a.0) <= 0x20_0000,
            abs(a.1) <= 0x20_0000,
            abs(b.0) <= 0x20_0000,
            abs(b.2) <= 0x20_0000,
            FX_ONE as int == 0x1_0000,
    ;
    assert(abs(a.0 * b.1 + a.1 * b.3) <= 0x1000_0000 * FX_ONE as int) by (nonlinear_arith)
        requires
            abs(a.0) <= 0x20_0000,
            abs(a.1) <= 0x20_0000,
            abs(b.1) <= 0x20_0000,
            abs(b.3) <= 0x20_0000,
            FX_ONE as int == 0x1_0000,
    ;
    assert(abs(a.2 * b.0 + a.3 * b.2) <= 0x1000_0000 * FX_ONE as int) by (nonlinear_arith)
        requires
            abs(a.2) <= 0x20_0000,
            abs(a.3) <= 0x20_0000,
            abs(b.0) <= 0x20_0000,
            abs(b.2) <= 0x20_0000,
            FX_ONE as int == 0x1_0000,
    ;
    assert(abs(a.2 * b.1 + a.3 * b.3) <= 0x1000_0000 * FX_ONE as int) by (nonlinear_arith)
        requires
            abs(a.2) <= 0x20_0000,
            abs(a.3) <= 0x20_0000,
            abs(b.1) <= 0x20_0000,
            abs(b.3) <= 0x20_0000,
            FX_ONE as int == 0x1_0000,
    ;
    assert(abs(a.0 * b.4 + a.1 * b.5) <= 0x4000_0000_0000 * FX_ONE as int) by (nonlinear_arith)
        requires
            abs(a.0) <= 0x20_0000,
            abs(a.1) <= 0x20_0000,
            abs(b.4) <= 0x100_0000_0000,
            abs(b.5) <= 0x100_0000_0000,
            FX_ONE as int == 0x1_0000,
    ;
    assert(abs(a.2 * b.4 + a.3 * b.5) <= 0x4000_0000_0000 * FX_ONE as int) by (nonlinear_arith)
        requires
            abs(a.2) <= 0x20_0000,
            abs(a.3) <= 0x20_0000,
            abs(b.4) <= 0x100_0000_0000,
            abs(b.5) <= 0x100_0000_0000,
            FX_ONE as int == 0x1_0000,
    ;
    lemma_tdiv_bound_by(a.0 * b.0 + a.1 * b.2, FX_ONE as int, 0x1000_0000);
    lemma_tdiv_bound_by(a.0 * b.1 + a.1 * b.3, FX_ONE as int, 0x1000_0000);
    lemma_tdiv_bound_by(a.2 * b.0 + a.3 * b.2, FX_ONE as int, 0x1000_0000);
    lemma_tdiv_bound_by(a.2 * b.1 + a.3 * b.3, FX_ONE as int, 0x1000_0000);
    lemma_tdiv_bound_by(a.0 * b.4 + a.1 * b.5, FX_ONE as int, 0x4000_0000_0000);
    lemma_tdiv_bound_by(a.2 * b.4 + a.3 * b.5, FX_ONE as int, 0x4000_0000_0000);
}

/// Bounds for a world transform applied to a bounded local point.
proof fn lemma_apply_bounds(t: (int, int, int, int, int, int), p: Vec2)
    requires
        abs(t.0) <= 0x1000_0000,
        abs(t.1) <= 0x1000_0000,
        abs(t.2) <= 0x1000_0000,
        abs(t.3) <= 0x1000_0000,
        abs(t.4) <= 0x8000_0000_0000,
        abs(t.5) <= 0x8000_0000_0000,
        p.bounded(0x10_0000_0000),
    ensures
        abs(t.0 * p.x + t.1 * p.y) <= 0x2_0000_0000_0000_0000,
        abs(t.2 * p.x + t.3 * p.y) <= 0x2_0000_0000_0000_0000,
        abs(apply_x_spec(t, p)) <= 0x4_0000_0000_0000,
        abs(apply_y_spec(t, p)) <= 0x4_0000_0000_0000,
{
    assert(abs(t.0 * p.x + t.1 * p.y) <= 0x2_0000_0000_0000 * FX_ONE as int && abs(
        t.2 * p.x + t.3 * p.y,
    ) <= 0x2_0000_0000_0000 * FX_ONE as int) by (nonlinear_arith)
        requires
            abs(t.0) <= 0x1000_0000,
            abs(t.1) <= 0x1000_0000,
            abs(t.2) <= 0x1000_0000,
            abs(t.3) <= 0x1000_0000,
            abs(p.x as int) <= 0x10_0000_0000,
            abs(p.y as int) <= 0x10_0000_0000,
            FX_ONE as int == 0x1_0000,
    ;
    lemma_tdiv_bound_by(t.0 * p.x + t.1 * p.y, FX_ONE as int, 0x2_0000_0000_0000);
    lemma_tdiv_bound_by(t.2 * p.x + t.3 * p.y, FX_ONE as int, 0x2_0000_0000_0000);
}

} // verus!
