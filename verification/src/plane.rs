//! An oriented edge: the boundary line through `start` and `end`.
//!
//! With counter-clockwise polygon winding the normal `(dy, -dx)` of the edge
//! direction points away from the polygon interior.

use vstd::prelude::*;
use vstd::math::abs;
use crate::fx::{
    div_trunc, fx_div, isqrt, lemma_sqrt_floor, lemma_sqrt_floor_mono, lemma_sqrt_floor_square,
    lemma_tdiv_bound_by, sqrt_floor, tdiv, FX_ONE,
};
use crate::vec2::Vec2;

verus! {

/// Magnitude bound accepted for every coordinate handed to plane geometry.
pub const PLANE_LIM: i128 = 0x4_0000_0000_0000;

/// An oriented line segment used both as polygon face and clipping boundary.
#[derive(Clone, Copy, PartialEq, Eq, Structural, Debug)]
pub struct Plane {
    pub start: Vec2,
    pub end: Vec2,
}

impl Plane {
    /// Both endpoints lie within magnitude `m`.
    pub open spec fn bounded(self, m: int) -> bool {
        self.start.bounded(m) && self.end.bounded(m)
    }

    /// The edge spans two distinct points, so it has a direction.
    pub open spec fn nondegenerate(self) -> bool {
        self.start != self.end
    }

    /// X component of the unnormalized outward normal `(dy, -dx)`.
    pub open spec fn normal_x_spec(self) -> int {
        self.end.y - self.start.y
    }

    /// Y component of the unnormalized outward normal `(dy, -dx)`.
    pub open spec fn normal_y_spec(self) -> int {
        -(self.end.x - self.start.x)
    }

    /// Length of the edge (and of its unnormalized normal), rounded down.
    pub open spec fn len_spec(self) -> int {
        sqrt_floor(
            self.normal_x_spec() * self.normal_x_spec() + self.normal_y_spec()
                * self.normal_y_spec(),
        )
    }

    /// Signed distance from the boundary line to `p` along the outward
    /// normal; positive means outside.
    pub open spec fn dist_spec(self, p: Vec2) -> int {
        tdiv(
            (p.x - self.start.x) * self.normal_x_spec() + (p.y - self.start.y)
                * self.normal_y_spec(),
            self.len_spec(),
        )
    }

    /// X component of the unit outward normal, as a fixed-point scalar.
    pub open spec fn unit_normal_x_spec(self) -> int {
        tdiv(self.normal_x_spec() * FX_ONE, self.len_spec())
    }

    /// Y component of the unit outward normal, as a fixed-point scalar.
    pub open spec fn unit_normal_y_spec(self) -> int {
        tdiv(self.normal_y_spec() * FX_ONE, self.len_spec())
    }

    /// Offset `c` of the normal form `normal . x == c`.
    pub open spec fn offset_spec(self) -> int {
        tdiv(
            self.unit_normal_x_spec() * self.start.x + self.unit_normal_y_spec() * self.start.y,
            FX_ONE as int,
        )
    }

    pub fn new(start: Vec2, end: Vec2) -> (r: Plane)
        ensures
            r == (Plane { start, end }),
    {
        Plane { start, end }
    }

    /// The unnormalized outward normal: the edge direction rotated by -90
    /// degrees.
    pub fn get_normal(&self) -> (r: Vec2)
        requires
            self.bounded(PLANE_LIM as int),
        ensures
            r.x as int == self.normal_x_spec(),
            r.y as int == self.normal_y_spec(),
    {
        let to_end = self.end.minus(self.start);
        Vec2 { x: to_end.y, y: -to_end.x }
    }

    /// Length of the edge, rounded down to a whole number of fixed-point
    /// units.
    pub fn len_raw(&self) -> (r: i128)
        requires
            self.bounded(PLANE_LIM as int),
        ensures
            r as int == self.len_spec(),
            r >= 0,
    {
        let n = self.get_normal();
        proof {
            crate::vec2::lemma_product_pair_bound(
                n.x as int,
                n.y as int,
                n.x as int,
                n.y as int,
                2 * PLANE_LIM as int,
            );
            assert(n.x as int * n.x as int >= 0 && n.y as int * n.y as int >= 0)
                by (nonlinear_arith);
            lemma_sqrt_floor(n.x as int * n.x as int + n.y as int * n.y as int);
        }
        let s = n.x * n.x + n.y * n.y;
        let r = isqrt(s as u128);
        proof {
            assert(r as int <= 0x100_0000_0000_0000) by (nonlinear_arith)
                requires
                    r as int >= 0,
                    r as int * r as int <= s as int,
                    s as int <= 0x100_0000_0000_0000_0000_0000_0000,
            ;
        }
        r as i128
    }

    /// Signed distance from the boundary line to `point` along the outward
    /// normal.
    pub fn distance_to(&self, point: &Vec2) -> (r: i128)
        requires
            self.bounded(PLANE_LIM as int),
            point.bounded(PLANE_LIM as int),
            self.nondegenerate(),
        ensures
            r as int == self.dist_spec(*point),
            abs(r as int) <= 4 * PLANE_LIM as int,
    {
        let n = self.get_normal();
        let u = point.minus(self.start);
        proof {
            self.lemma_len_bounds();
            self.lemma_dist_bound(*point, PLANE_LIM as int);
            crate::vec2::lemma_product_pair_bound(
                u.x as int,
                u.y as int,
                n.x as int,
                n.y as int,
                2 * PLANE_LIM as int,
            );
        }
        let num = u.x * n.x + u.y * n.y;
        let len = self.len_raw();
        div_trunc(num, len)
    }

    /// The closest point on the infinite boundary line to `point`.
    pub fn project_point(&self, point: &Vec2) -> (r: Vec2)
        requires
            self.bounded(0x100_0000_0000 as int),
            point.bounded(0x100_0000_0000 as int),
            self.nondegenerate(),
        ensures
            ({
                let vx = self.end.x - self.start.x;
                let vy = self.end.y - self.start.y;
                let d = vx * (point.x - self.start.x) + vy * (point.y - self.start.y);
                let nsq = vx * vx + vy * vy;
                r.x as int == self.start.x + tdiv(d * vx, nsq) && r.y as int == self.start.y
                    + tdiv(d * vy, nsq)
            }),
    {
        let v = self.end.minus(self.start);
        let u = point.minus(self.start);
        proof {
            self.lemma_edge_nsq_pos();
            crate::vec2::lemma_product_pair_bound(
                v.x as int,
                v.y as int,
                u.x as int,
                u.y as int,
                0x200_0000_0000,
            );
            crate::vec2::lemma_product_pair_bound(
                v.x as int,
                v.y as int,
                v.x as int,
                v.y as int,
                0x200_0000_0000,
            );
        }
        let d = v.x * u.x + v.y * u.y;
        let nsq = v.x * v.x + v.y * v.y;
        proof {
            assert(abs(d as int * v.x as int) <= 0x1000_0000_0000_0000_0000_0000_0000_0000)
                by (nonlinear_arith)
                requires
                    abs(d as int) <= 0x8_0000_0000_0000_0000_0000,
                    abs(v.x as int) <= 0x200_0000_0000,
            ;
            assert(abs(d as int * v.y as int) <= 0x1000_0000_0000_0000_0000_0000_0000_0000)
                by (nonlinear_arith)
                requires
                    abs(d as int) <= 0x8_0000_0000_0000_0000_0000,
                    abs(v.y as int) <= 0x200_0000_0000,
            ;
            crate::fx::lemma_tdiv_mag(d as int * v.x as int, nsq as int);
            crate::fx::lemma_tdiv_mag(d as int * v.y as int, nsq as int);
        }
        let px = self.start.x + div_trunc(d * v.x, nsq);
        let py = self.start.y + div_trunc(d * v.y, nsq);
        Vec2 { x: px, y: py }
    }

    /// The start point and the direction vector of the edge.
    pub fn get_parametric_form(&self) -> (r: (Vec2, Vec2))
        requires
            self.bounded(PLANE_LIM as int),
        ensures
            r.0 == self.start,
            r.1.x as int == self.end.x - self.start.x,
            r.1.y as int == self.end.y - self.start.y,
    {
        (self.start, self.end.minus(self.start))
    }

    /// Unit outward normal and offset `c` with `normal . x == c` on the line.
    pub fn get_normal_form(&self) -> (r: (Vec2, i128))
        requires
            self.bounded(PLANE_LIM as int),
            self.nondegenerate(),
        ensures
            r.0.x as int == self.unit_normal_x_spec(),
            r.0.y as int == self.unit_normal_y_spec(),
            r.1 as int == self.offset_spec(),
            r.0.bounded(FX_ONE as int),
    {
        proof {
            self.lemma_len_bounds();
            self.lemma_unit_normal_bound();
        }
        let n = self.get_normal();
        let len = self.len_raw();
        let ux = div_trunc(n.x * FX_ONE, len);
        let uy = div_trunc(n.y * FX_ONE, len);
        let unit = Vec2 { x: ux, y: uy };
        let c = unit.dot(self.start);
        (unit, c)
    }

    /// Crossing point of this boundary line with the segment `other`, if the
    /// segment parameter lies in [0, 1], as a pair of plain integers.
    pub open spec fn intersection_spec(self, other: Plane) -> Option<(int, int)> {
        let denom = self.clip_denom_spec(other);
        let t = self.clip_t_spec(other);
        if denom != 0 && 0 <= t <= FX_ONE as int {
            Some(
                (
                    other.start.x + tdiv((other.end.x - other.start.x) * t, FX_ONE as int),
                    other.start.y + tdiv((other.end.y - other.start.y) * t, FX_ONE as int),
                ),
            )
        } else {
            None
        }
    }

    /// Clip `other`, read as a finite parametric segment, against this
    /// boundary line; the crossing point is returned only when the segment
    /// parameter lies in [0, 1].
    pub fn find_intersection(&self, other: &Plane) -> (r: Option<Vec2>)
        requires
            self.bounded(PLANE_LIM as int),
            other.bounded(PLANE_LIM as int),
            self.nondegenerate(),
        ensures
            r is Some <==> self.intersection_spec(*other) is Some,
            r is Some ==> r->Some_0.x as int == self.intersection_spec(*other)->Some_0.0
                && r->Some_0.y as int == self.intersection_spec(*other)->Some_0.1,
            r is Some ==> r->Some_0.bounded(PLANE_LIM as int),
    {
        let (normal, c) = self.get_normal_form();
        let (start, v) = other.get_parametric_form();
        let denom = v.dot(normal);
        if denom == 0 {
            return None;
        }
        let sd = start.dot(normal);
        proof {
            self.lemma_offset_bound();
            crate::vec2::lemma_dot_spec_bound(
                start,
                normal,
                PLANE_LIM as int,
                FX_ONE as int,
            );
        }
        let t = fx_div(c - sd, denom);
        if 0 <= t && t <= FX_ONE {
            let w = v.scaled(t);
            proof {
                crate::fx::lemma_fx_interp(v.x as int, t as int);
                crate::fx::lemma_fx_interp(v.y as int, t as int);
            }
            let hit = start.plus(w);
            proof {
                assert(other.start.x <= hit.x <= other.end.x || other.end.x <= hit.x
                    <= other.start.x);
                assert(other.start.y <= hit.y <= other.end.y || other.end.y <= hit.y
                    <= other.start.y);
            }
            Some(hit)
        } else {
            None
        }
    }

    /// Denominator of the clip parameter: the segment direction projected on
    /// the unit normal.
    pub open spec fn clip_denom_spec(self, other: Plane) -> int {
        tdiv(
            (other.end.x - other.start.x) * self.unit_normal_x_spec() + (other.end.y
                - other.start.y) * self.unit_normal_y_spec(),
            FX_ONE as int,
        )
    }

    /// The clip parameter `t` of the crossing along `other`, as a fixed-point
    /// scalar; 0 is `other.start` and `FX_ONE` is `other.end`.
    pub open spec fn clip_t_spec(self, other: Plane) -> int {
        tdiv(
            (self.offset_spec() - tdiv(
                other.start.x * self.unit_normal_x_spec() + other.start.y
                    * self.unit_normal_y_spec(),
                FX_ONE as int,
            )) * FX_ONE,
            self.clip_denom_spec(other),
        )
    }

    /// One of the two endpoints is the given point.
    pub fn is_made_of(&self, point: &Vec2) -> (r: bool)
        ensures
            r <==> (*point == self.start || *point == self.end),
    {
        *point == self.start || *point == self.end
    }

    pub fn start(&self) -> (r: Vec2)
        ensures
            r == self.start,
    {
        self.start
    }

    pub fn end(&self) -> (r: Vec2)
        ensures
            r == self.end,
    {
        self.end
    }

    /// The midpoint of the edge, rounded toward zero componentwise.
    pub fn midpoint(&self) -> (r: Vec2)
        requires
            self.bounded(PLANE_LIM as int),
        ensures
            r.x as int == tdiv(self.start.x + self.end.x, 2),
            r.y as int == tdiv(self.start.y + self.end.y, 2),
    {
        proof {
            crate::fx::lemma_tdiv_mag(self.start.x + self.end.x, 2);
            crate::fx::lemma_tdiv_mag(self.start.y + self.end.y, 2);
        }
        let sx = div_trunc(self.start.x + self.end.x, 2);
        let sy = div_trunc(self.start.y + self.end.y, 2);
        Vec2 { x: sx, y: sy }
    }

    /// A nondegenerate edge has a positive squared direction length.
    proof fn lemma_edge_nsq_pos(self)
        requires
            self.nondegenerate(),
        ensures
            ({
                let vx = self.end.x - self.start.x;
                let vy = self.end.y - self.start.y;
                vx * vx + vy * vy >= 1
            }),
    {
        let vx = self.end.x - self.start.x;
        let vy = self.end.y - self.start.y;
        assert(vx != 0 || vy != 0);
        assert(vx != 0 || vy != 0 ==> vx * vx + vy * vy >= 1) by (nonlinear_arith);
    }

    /// The edge length bounds each normal component and, for a bounded
    /// nondegenerate edge, is positive and at most the component sum.
    pub proof fn lemma_len_bounds(self)
        requires
            self.nondegenerate(),
        ensures
            self.len_spec() >= abs(self.normal_x_spec()),
            self.len_spec() >= abs(self.normal_y_spec()),
            self.len_spec() >= 1,
            self.len_spec() <= abs(self.normal_x_spec()) + abs(self.normal_y_spec()),
    {
        let nx = self.normal_x_spec();
        let ny = self.normal_y_spec();
        let q = nx * nx + ny * ny;
        assert(nx * nx == abs(nx) * abs(nx) && ny * ny == abs(ny) * abs(ny) && nx * nx >= 0 && ny
            * ny >= 0) by (nonlinear_arith);
        lemma_sqrt_floor_square(abs(nx) as int);
        lemma_sqrt_floor_square(abs(ny) as int);
        lemma_sqrt_floor_mono(abs(nx) as int * abs(nx) as int, q);
        lemma_sqrt_floor_mono(abs(ny) as int * abs(ny) as int, q);
        let s = abs(nx) as int + abs(ny) as int;
        assert(q <= s * s) by (nonlinear_arith)
            requires
                s == abs(nx) + abs(ny) && q == nx * nx + ny * ny && abs(nx) >= 0 && abs(ny) >= 0
                    && nx * nx == abs(nx) * abs(nx) && ny * ny == abs(ny) * abs(ny),
        ;
        lemma_sqrt_floor_mono(q, s * s);
        lemma_sqrt_floor_square(s);
        assert(nx != 0 || ny != 0);
        assert(abs(nx) >= 1 || abs(ny) >= 1);
    }

    /// Each unit normal component has magnitude at most `FX_ONE`.
    pub proof fn lemma_unit_normal_bound(self)
        requires
            self.nondegenerate(),
        ensures
            abs(self.unit_normal_x_spec()) <= FX_ONE as int,
            abs(self.unit_normal_y_spec()) <= FX_ONE as int,
    {
        self.lemma_len_bounds();
        let nx = self.normal_x_spec();
        let ny = self.normal_y_spec();
        let len = self.len_spec();
        assert(abs(nx * FX_ONE as int) <= FX_ONE as int * len) by (nonlinear_arith)
            requires
                abs(nx) <= len,
        ;
        assert(abs(ny * FX_ONE as int) <= FX_ONE as int * len) by (nonlinear_arith)
            requires
                abs(ny) <= len,
        ;
        lemma_tdiv_bound_by(nx * FX_ONE as int, len, FX_ONE as int);
        lemma_tdiv_bound_by(ny * FX_ONE as int, len, FX_ONE as int);
    }

    /// The normal-form offset of a bounded edge is bounded.
    pub proof fn lemma_offset_bound(self)
        requires
            self.nondegenerate(),
            self.bounded(PLANE_LIM as int),
        ensures
            abs(self.offset_spec()) <= 2 * FX_ONE as int * PLANE_LIM as int,
    {
        self.lemma_unit_normal_bound();
        let ux = self.unit_normal_x_spec();
        let uy = self.unit_normal_y_spec();
        let num = ux * self.start.x + uy * self.start.y;
        assert(abs(num) <= 2 * FX_ONE as int * PLANE_LIM as int) by (nonlinear_arith)
            requires
                num == ux * self.start.x + uy * self.start.y,
                abs(ux) <= FX_ONE as int,
                abs(uy) <= FX_ONE as int,
                abs(self.start.x as int) <= PLANE_LIM as int,
                abs(self.start.y as int) <= PLANE_LIM as int,
        ;
        crate::fx::lemma_tdiv_mag(num, FX_ONE as int);
    }

    /// Signed distance to a bounded point is bounded by four times the
    /// coordinate bound.
    pub proof fn lemma_dist_bound(self, p: Vec2, m: int)
        requires
            self.nondegenerate(),
            m >= 0,
            self.bounded(m),
            p.bounded(m),
        ensures
            abs(self.dist_spec(p)) <= 4 * m,
    {
        self.lemma_len_bounds();
        let nx = self.normal_x_spec();
        let ny = self.normal_y_spec();
        let len = self.len_spec();
        let ux = p.x - self.start.x;
        let uy = p.y - self.start.y;
        let num = ux * nx + uy * ny;
        assert(abs(num) <= (4 * m) * len) by (nonlinear_arith)
            requires
                num == ux * nx + uy * ny,
                abs(ux) <= 2 * m,
                abs(uy) <= 2 * m,
                abs(nx) <= len,
                abs(ny) <= len,
                m >= 0,
                len >= 1,
        ;
        lemma_tdiv_bound_by(num, len, 4 * m);
    }
}

} // verus!
