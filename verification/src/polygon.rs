//! Convex polygons: ordered vertex sets with support mapping and
//! separating-axis queries.
//!
//! Vertices are stored in counter-clockwise winding order (a caller contract),
//! so each face's normal `(dy, -dx)` points away from the interior. The
//! geometric specifications are stated over plain vertex sequences, so that
//! world-space copies of a polygon can be described exactly.

use vstd::prelude::*;
use vstd::math::abs;
use crate::plane::{Plane, PLANE_LIM};
use crate::transform::{
    apply_x_spec, apply_y_spec, compose_entries_spec, pose_entries_spec, tuple_of, Transform,
};
use crate::trig::{cos_fx, cos_spec, sin_fx, sin_spec};
use crate::vec2::Vec2;

verus! {

/// A convex polygon: vertices in local space plus a local pose.
#[derive(Debug)]
pub struct Polygon {
    pub points: Vec<Vec2>,
    pub position: Vec2,
    pub rotation: i128,
    pub scale: Vec2,
}

/// Geometric well-formedness of a vertex ring: at least a triangle, bounded
/// coordinates, and no zero-length face.
pub open spec fn wf_points_seq(pts: Seq<Vec2>) -> bool {
    &&& 3 <= pts.len() <= 0x1000_0000
    &&& (forall|i: int| 0 <= i < pts.len() ==> (#[trigger] pts[i]).bounded(PLANE_LIM as int))
    &&& (forall|i: int|
        0 <= i < pts.len() ==> (#[trigger] pts[i]) != pts[(i + 1) % (pts.len() as int)])
}

/// The face that starts at vertex `i` and ends at the next vertex around the
/// ring.
pub open spec fn plane_at(pts: Seq<Vec2>, i: int) -> Plane
    recommends
        0 <= i < pts.len(),
{
    Plane { start: pts[i], end: pts[(i + 1) % (pts.len() as int)] }
}

/// Index of the first vertex among the first `n` that maximizes the raw
/// projection on direction `(dx, dy)`.
pub open spec fn support_index_spec(pts: Seq<Vec2>, dx: int, dy: int, n: int) -> int
    decreases n,
{
    if n <= 1 {
        0
    } else {
        let b = support_index_spec(pts, dx, dy, n - 1);
        if pts[n - 1].x * dx + pts[n - 1].y * dy > pts[b].x * dx + pts[b].y * dy {
            n - 1
        } else {
            b
        }
    }
}

/// The support vertex: the first vertex maximizing the projection on
/// `(dx, dy)`.
pub open spec fn support_spec(pts: Seq<Vec2>, dx: int, dy: int) -> Vec2 {
    pts[support_index_spec(pts, dx, dy, pts.len() as int)]
}

/// Signed distance from face `i` of `pts` to the support point of `other`
/// opposite that face's normal: how far `other` extends past the face
/// (negative means it crosses it).
pub open spec fn face_dist_spec(pts: Seq<Vec2>, other: Seq<Vec2>, i: int) -> int
    recommends
        0 <= i < pts.len(),
{
    let p = plane_at(pts, i);
    p.dist_spec(support_spec(other, -p.normal_x_spec(), -p.normal_y_spec()))
}

/// Index of the first face among the first `n` whose signed support distance
/// is maximal: the best separating (least penetrating) axis.
pub open spec fn query_index_spec(pts: Seq<Vec2>, other: Seq<Vec2>, n: int) -> int
    decreases n,
{
    if n <= 1 {
        0
    } else {
        let b = query_index_spec(pts, other, n - 1);
        if face_dist_spec(pts, other, n - 1) > face_dist_spec(pts, other, b) {
            n - 1
        } else {
            b
        }
    }
}

/// The maximal signed support distance over all faces of `pts` against
/// `other`.
pub open spec fn query_dist_spec(pts: Seq<Vec2>, other: Seq<Vec2>) -> int {
    face_dist_spec(pts, other, query_index_spec(pts, other, pts.len() as int))
}

/// Recursive choice of the significant face: among the first `n` faces that
/// touch the support point, the first whose normal has the largest positive
/// raw projection on `(dx, dy)`; the fallback is face 0.
pub open spec fn sig_face_rec(pts: Seq<Vec2>, dx: int, dy: int, n: int) -> (int, int)
    decreases n,
{
    if n <= 0 {
        (0, 0)
    } else {
        let prev = sig_face_rec(pts, dx, dy, n - 1);
        let p = plane_at(pts, n - 1);
        let sup = support_spec(pts, dx, dy);
        let d = p.normal_x_spec() * dx + p.normal_y_spec() * dy;
        if (sup == p.start || sup == p.end) && d > prev.1 {
            (n - 1, d)
        } else {
            prev
        }
    }
}

/// Index of the significant face of `pts` for direction `(dx, dy)`.
pub open spec fn sig_face_index_spec(pts: Seq<Vec2>, dx: int, dy: int) -> int {
    sig_face_rec(pts, dx, dy, pts.len() as int).0
}

/// The collision result of a separating-axis test between two vertex rings,
/// as a mathematical value: `None` when a separating axis exists (including
/// exact touching), else the flag "the first ring owns the reference face",
/// the unit normal of that face, and the (negative) penetration depth.
pub open spec fn check_collision_spec(a: Seq<Vec2>, b: Seq<Vec2>) -> Option<(bool, (int, int), int,
)> {
    let qd = query_dist_spec(a, b);
    let qod = query_dist_spec(b, a);
    if qd >= 0 || qod >= 0 {
        None
    } else if qd > qod {
        let p = plane_at(a, query_index_spec(a, b, a.len() as int));
        Some((true, (p.unit_normal_x_spec(), p.unit_normal_y_spec()), qd))
    } else {
        let p = plane_at(b, query_index_spec(b, a, b.len() as int));
        Some((false, (p.unit_normal_x_spec(), p.unit_normal_y_spec()), qod))
    }
}

/// Every support index over a prefix stays inside the prefix.
pub proof fn lemma_support_index_range(pts: Seq<Vec2>, dx: int, dy: int, n: int)
    requires
        n >= 1,
    ensures
        0 <= support_index_spec(pts, dx, dy, n) < n,
    decreases n,
{
    if n > 1 {
        lemma_support_index_range(pts, dx, dy, n - 1);
    }
}

/// Every face-query index over a prefix stays inside the prefix.
pub proof fn lemma_query_index_range(pts: Seq<Vec2>, other: Seq<Vec2>, n: int)
    requires
        n >= 1,
    ensures
        0 <= query_index_spec(pts, other, n) < n,
    decreases n,
{
    if n > 1 {
        lemma_query_index_range(pts, other, n - 1);
    }
}

/// Every significant-face index over a prefix stays inside the prefix (face 0
/// is the fallback).
pub proof fn lemma_sig_face_range(pts: Seq<Vec2>, dx: int, dy: int, n: int)
    requires
        n >= 0,
    ensures
        0 <= sig_face_rec(pts, dx, dy, n).0 < if n == 0 {
            1int
        } else {
            n
        },
    decreases n,
{
    if n > 0 {
        lemma_sig_face_range(pts, dx, dy, n - 1);
    }
}

/// Two separated (or exactly touching) vertex rings test as not colliding in
/// both argument orders.
pub proof fn lemma_separated_both_orders(a: Seq<Vec2>, b: Seq<Vec2>)
    requires
        query_dist_spec(a, b) >= 0 || query_dist_spec(b, a) >= 0,
    ensures
        check_collision_spec(a, b) is None,
        check_collision_spec(b, a) is None,
{
}

/// For an overlapping pair whose two best axes differ, the reference face is
/// the one with the smaller penetration magnitude, and swapping the argument
/// order yields the complementary role assignment with the same unit normal
/// and the same penetration depth.
pub proof fn lemma_reference_role_swap(a: Seq<Vec2>, b: Seq<Vec2>)
    requires
        query_dist_spec(a, b) < 0,
        query_dist_spec(b, a) < 0,
        query_dist_spec(a, b) != query_dist_spec(b, a),
    ensures
        check_collision_spec(a, b) is Some,
        check_collision_spec(b, a) is Some,
        check_collision_spec(a, b)->Some_0.0 == !check_collision_spec(b, a)->Some_0.0,
        check_collision_spec(a, b)->Some_0.1 == check_collision_spec(b, a)->Some_0.1,
        check_collision_spec(a, b)->Some_0.2 == check_collision_spec(b, a)->Some_0.2,
        abs(check_collision_spec(a, b)->Some_0.2) <= abs(query_dist_spec(a, b)),
        abs(check_collision_spec(a, b)->Some_0.2) <= abs(query_dist_spec(b, a)),
{
}

/// The world-space vertex sequence of a local vertex ring under an affine
/// transform.
pub open spec fn world_points_seq(pts: Seq<Vec2>, t: (int, int, int, int, int, int)) -> Seq<Vec2> {
    Seq::new(
        pts.len(),
        |i: int|
            Vec2 { x: apply_x_spec(t, pts[i]) as i128, y: apply_y_spec(t, pts[i]) as i128 },
    )
}

impl Polygon {
    /// Geometric well-formedness of the vertex ring.
    pub open spec fn wf_points(self) -> bool {
        wf_points_seq(self.points@)
    }

    /// The local pose stays within the engine's operating range.
    pub open spec fn wf_pose(self) -> bool {
        &&& self.position.bounded(0x100_0000_0000)
        &&& self.scale.bounded(0x10_0000)
        &&& abs(self.rotation as int) <= 0x1_0000_0000_0000
    }

    /// Local vertices stay within the range that a transform accepts.
    pub open spec fn local_bounded(self) -> bool {
        forall|i: int|
            0 <= i < self.points@.len() ==> (#[trigger] self.points@[i]).bounded(0x10_0000_0000)
    }

    /// The entries of this polygon's local pose transform.
    pub open spec fn local_entries_spec(self) -> (int, int, int, int, int, int) {
        pose_entries_spec(
            self.position,
            cos_spec(self.rotation as int),
            sin_spec(self.rotation as int),
            self.scale,
        )
    }

    /// The entries of the full local-to-world transform under a body
    /// transform.
    pub open spec fn world_entries_spec(self, bt: (int, int, int, int, int, int)) -> (
        int,
        int,
        int,
        int,
        int,
        int,
    ) {
        compose_entries_spec(bt, self.local_entries_spec())
    }

    /// A polygon with the given vertices and local pose.
    pub fn new(points: Vec<Vec2>, position: Vec2, rotation: i128, scale: Vec2) -> (r: Polygon)
        ensures
            r.points == points,
            r.position == position,
            r.rotation == rotation,
            r.scale == scale,
    {
        Polygon { points, position, rotation, scale }
    }

    /// The face that starts at vertex `index`.
    pub fn get_plane(&self, index: usize) -> (r: Plane)
        requires
            self.wf_points(),
            index < self.points@.len(),
        ensures
            r == plane_at(self.points@, index as int),
            r.bounded(PLANE_LIM as int),
            r.nondegenerate(),
    {
        let wrapped_index = (index + 1) % self.points.len();
        Plane { start: self.points[index], end: self.points[wrapped_index] }
    }

    /// The index of the face after `index`, around the ring.
    pub fn increment_side(&self, index: usize) -> (r: usize)
        requires
            self.wf_points(),
            index < self.points@.len(),
        ensures
            r as int == (index + 1) % (self.points@.len() as int),
            r < self.points@.len(),
    {
        (index + 1) % self.points.len()
    }

    /// The index of the face before `index`, around the ring.
    pub fn decrement_side(&self, index: usize) -> (r: usize)
        requires
            self.wf_points(),
            index < self.points@.len(),
        ensures
            r as int == (index + self.points@.len() - 1) % (self.points@.len() as int),
            r < self.points@.len(),
    {
        (index + self.points.len() - 1) % self.points.len()
    }

    /// The vertex maximizing the projection on `direction`; ties go to the
    /// first vertex in storage order.
    #[verifier::rlimit(60)]
    pub fn map_support(&self, direction: Vec2) -> (r: Vec2)
        requires
            self.wf_points(),
            direction.bounded(0x1000_0000_0000_0000),
        ensures
            r == support_spec(self.points@, direction.x as int, direction.y as int),
            r.bounded(PLANE_LIM as int),
    {
        let mut best: usize = 0;
        let mut best_dot: i128 = self.points[0].dot_raw(direction);
        let mut i: usize = 1;
        while i < self.points.len()
            invariant
                self.wf_points(),
                direction.bounded(0x1000_0000_0000_0000),
                1 <= i <= self.points@.len(),
                best < i,
                best as int == support_index_spec(
                    self.points@,
                    direction.x as int,
                    direction.y as int,
                    i as int,
                ),
                best_dot as int == self.points@[best as int].dot_raw_spec(direction),
            decreases self.points@.len() - i,
        {
            let d = self.points[i].dot_raw(direction);
            if d > best_dot {
                best = i;
                best_dot = d;
            }
            i += 1;
        }
        self.points[best]
    }

    /// Signed support distance of face `i` against `other`.
    fn face_distance(&self, other: &Polygon, i: usize) -> (d: i128)
        requires
            self.wf_points(),
            other.wf_points(),
            i < self.points@.len(),
        ensures
            d as int == face_dist_spec(self.points@, other.points@, i as int),
            abs(d as int) <= 4 * PLANE_LIM as int,
    {
        let plane = self.get_plane(i);
        let normal = plane.get_normal();
        let support = other.map_support(normal.neg());
        plane.distance_to(&support)
    }

    /// For each of this polygon's faces, how far `other` extends past it;
    /// returns the face index and signed distance of the best separating
    /// (least penetrating) axis. Ties keep the first face.
    #[verifier::rlimit(60)]
    pub fn query_faces(&self, other: &Polygon) -> (r: (usize, i128))
        requires
            self.wf_points(),
            other.wf_points(),
        ensures
            r.0 as int == query_index_spec(self.points@, other.points@, self.points@.len() as int),
            r.1 as int == query_dist_spec(self.points@, other.points@),
            r.0 < self.points@.len(),
            abs(r.1 as int) <= 4 * PLANE_LIM as int,
    {
        let mut max_index: usize = 0;
        let mut max_distance: i128 = self.face_distance(other, 0);
        let mut i: usize = 1;
        while i < self.points.len()
            invariant
                self.wf_points(),
                other.wf_points(),
                1 <= i <= self.points@.len(),
                max_index < i,
                max_index as int == query_index_spec(self.points@, other.points@, i as int),
                max_distance as int == face_dist_spec(
                    self.points@,
                    other.points@,
                    max_index as int,
                ),
                abs(max_distance as int) <= 4 * PLANE_LIM as int,
            decreases self.points@.len() - i,
        {
            let distance = self.face_distance(other, i);
            if distance > max_distance {
                max_distance = distance;
                max_index = i;
            }
            i += 1;
        }
        (max_index, max_distance)
    }

    /// The separating-axis test. `None` when the polygons are separated or
    /// just touching; otherwise the reference side is the one whose best axis
    /// has the shallower penetration, and the result carries that side's unit
    /// face normal and the (negative) penetration.
    pub fn check_collision(&self, other: &Polygon) -> (r: Option<(bool, Vec2, i128)>)
        requires
            self.wf_points(),
            other.wf_points(),
        ensures
            ({
                let sp = check_collision_spec(self.points@, other.points@);
                &&& (r is Some <==> sp is Some)
                &&& (r is Some ==> r->Some_0.0 == sp->Some_0.0)
                &&& (r is Some ==> r->Some_0.1.x as int == sp->Some_0.1.0 && r->Some_0.1.y as int
                    == sp->Some_0.1.1)
                &&& (r is Some ==> r->Some_0.2 as int == sp->Some_0.2)
            }),
    {
        let query = self.query_faces(other);
        if query.1 >= 0 {
            return None;
        }
        let query_other = other.query_faces(self);
        if query_other.1 >= 0 {
            return None;
        }
        if query.1 > query_other.1 {
            let plane = self.get_plane(query.0);
            let (normal, _c) = plane.get_normal_form();
            Some((true, normal, query.1))
        } else {
            let plane = other.get_plane(query_other.0);
            let (normal, _c) = plane.get_normal_form();
            Some((false, normal, query_other.1))
        }
    }

    /// The significant face for `normal` and its index: among the faces that
    /// touch the support vertex along `normal`, the one whose own normal is
    /// most aligned with `normal`.
    pub fn get_significant_face_with_index(&self, normal: Vec2) -> (r: (Plane, usize))
        requires
            self.wf_points(),
            normal.bounded(0x1000_0000_0000_0000),
        ensures
            r.1 as int == sig_face_index_spec(self.points@, normal.x as int, normal.y as int),
            r.1 < self.points@.len(),
            r.0 == plane_at(self.points@, r.1 as int),
    {
        let support_point = self.map_support(normal);
        let mut max_plane_dot: i128 = 0;
        let mut max_plane_index: usize = 0;
        let mut i: usize = 0;
        while i < self.points.len()
            invariant
                self.wf_points(),
                normal.bounded(0x1000_0000_0000_0000),
                i <= self.points@.len(),
                max_plane_index < self.points@.len(),
                support_point == support_spec(self.points@, normal.x as int, normal.y as int),
                (max_plane_index as int, max_plane_dot as int) == sig_face_rec(
                    self.points@,
                    normal.x as int,
                    normal.y as int,
                    i as int,
                ),
            decreases self.points@.len() - i,
        {
            let plane = self.get_plane(i);
            let pn = plane.get_normal();
            let d = pn.dot_raw(normal);
            if plane.is_made_of(&support_point) && d > max_plane_dot {
                max_plane_dot = d;
                max_plane_index = i;
            }
            i += 1;
        }
        (self.get_plane(max_plane_index), max_plane_index)
    }

    /// The significant face for `normal`.
    pub fn get_significant_face(&self, normal: Vec2) -> (r: Plane)
        requires
            self.wf_points(),
            normal.bounded(0x1000_0000_0000_0000),
        ensures
            r == plane_at(
                self.points@,
                sig_face_index_spec(self.points@, normal.x as int, normal.y as int),
            ),
    {
        self.get_significant_face_with_index(normal).0
    }

    /// Number of vertices (and faces).
    pub fn point_count(&self) -> (r: usize)
        ensures
            r == self.points@.len(),
    {
        self.points.len()
    }

    /// The local pose as an affine transform.
    pub fn get_transform(&self) -> (r: Transform)
        requires
            self.wf_pose(),
        ensures
            tuple_of(r) == self.local_entries_spec(),
            r.pose_bounded(),
    {
        let c = cos_fx(self.rotation);
        let s = sin_fx(self.rotation);
        Transform::from_pose(self.position, c, s, self.scale)
    }

    /// The local vertices carried into world space by `body_transform`
    /// composed with the local pose.
    pub fn global_points(&self, body_transform: &Transform) -> (r: Vec<Vec2>)
        requires
            self.wf_pose(),
            self.local_bounded(),
            body_transform.pose_bounded(),
        ensures
            r@ == world_points_seq(
                self.points@,
                self.world_entries_spec(tuple_of(*body_transform)),
            ),
            forall|i: int|
                0 <= i < self.points@.len() ==> (#[trigger] r@[i]).bounded(0x4_0000_0000_0000),
    {
        let transform = body_transform.compose(&self.get_transform());
        let mut out: Vec<Vec2> = Vec::new();
        let mut i: usize = 0;
        while i < self.points.len()
            invariant
                self.wf_pose(),
                self.local_bounded(),
                body_transform.pose_bounded(),
                transform.world_bounded(),
                tuple_of(transform) == self.world_entries_spec(tuple_of(*body_transform)),
                i <= self.points@.len(),
                out@.len() == i,
                forall|j: int|
                    0 <= j < i ==> (#[trigger] out@[j]) == world_points_seq(
                        self.points@,
                        self.world_entries_spec(tuple_of(*body_transform)),
                    )[j],
                forall|j: int|
                    0 <= j < i ==> (#[trigger] out@[j]).bounded(0x4_0000_0000_0000),
            decreases self.points@.len() - i,
        {
            let p = transform.apply(self.points[i]);
            out.push(p);
            i += 1;
        }
        proof {
            assert(out@ =~= world_points_seq(
                self.points@,
                self.world_entries_spec(tuple_of(*body_transform)),
            ));
        }
        out
    }

    /// A copy of this polygon whose vertices are the world-space ones; all
    /// later separating-axis and clipping math runs on such copies.
    pub fn get_in_world(&self, body_transform: &Transform) -> (r: Polygon)
        requires
            self.wf_pose(),
            self.local_bounded(),
            body_transform.pose_bounded(),
        ensures
            r.points@ == world_points_seq(
                self.points@,
                self.world_entries_spec(tuple_of(*body_transform)),
            ),
            forall|i: int|
                0 <= i < self.points@.len() ==> (#[trigger] r.points@[i]).bounded(
                    0x4_0000_0000_0000,
                ),
            r.position == self.position,
            r.rotation == self.rotation,
            r.scale == self.scale,
    {
        Polygon {
            points: self.global_points(body_transform),
            position: self.position,
            rotation: self.rotation,
            scale: self.scale,
        }
    }

    /// Decides [`wf_points_seq`] for this polygon's vertices: the geometric
    /// validity of the ring, checked before world-space copies enter
    /// collision queries.
    pub fn points_well_formed(&self) -> (r: bool)
        ensures
            r == self.wf_points(),
    {
        let n = self.points.len();
        if n < 3 || n > 0x1000_0000 {
            return false;
        }
        let mut i: usize = 0;
        while i < n
            invariant
                n == self.points@.len(),
                3 <= n <= 0x1000_0000,
                i <= n,
                forall|j: int|
                    0 <= j < i ==> (#[trigger] self.points@[j]).bounded(PLANE_LIM as int),
                forall|j: int|
                    0 <= j < i ==> (#[trigger] self.points@[j]) != self.points@[(j + 1) % (
                    self.points@.len() as int)],
            decreases n - i,
        {
            let p = self.points[i];
            let q = self.points[(i + 1) % n];
            if p.x < -PLANE_LIM || p.x > PLANE_LIM || p.y < -PLANE_LIM || p.y > PLANE_LIM {
                return false;
            }
            if p == q {
                return false;
            }
            i += 1;
        }
        true
    }
}

impl Polygon {
    /// Decides [`Polygon::local_bounded`].
    pub fn local_in_range(&self) -> (r: bool)
        ensures
            r == self.local_bounded(),
    {
        let n = self.points.len();
        let mut i: usize = 0;
        while i < n
            invariant
                n == self.points@.len(),
                i <= n,
                forall|j: int|
                    0 <= j < i ==> (#[trigger] self.points@[j]).bounded(0x10_0000_0000),
            decreases n - i,
        {
            let p = self.points[i];
            if p.x < -0x10_0000_0000 || p.x > 0x10_0000_0000 || p.y < -0x10_0000_0000 || p.y
                > 0x10_0000_0000 {
                return false;
            }
            i += 1;
        }
        true
    }

    /// Decides [`Polygon::wf_pose`].
    pub fn pose_in_range(&self) -> (r: bool)
        ensures
            r == self.wf_pose(),
    {
        self.position.x >= -0x100_0000_0000 && self.position.x <= 0x100_0000_0000
            && self.position.y >= -0x100_0000_0000 && self.position.y <= 0x100_0000_0000
            && self.scale.x >= -0x10_0000 && self.scale.x <= 0x10_0000 && self.scale.y >= -0x10_0000
            && self.scale.y <= 0x10_0000 && self.rotation >= -0x1_0000_0000_0000 && self.rotation
            <= 0x1_0000_0000_0000
    }
}

/// Under identity transforms (an identity body transform and an identity
/// local pose) a polygon's world vertices are its local vertices, unchanged.
pub proof fn lemma_get_in_world_identity(p: Polygon, bt: (int, int, int, int, int, int))
    requires
        bt == (crate::fx::FX_ONE as int, 0int, 0int, crate::fx::FX_ONE as int, 0int, 0int),
        p.position == (Vec2 { x: 0, y: 0 }),
        p.rotation == 0,
        p.scale == (Vec2 { x: crate::fx::FX_ONE, y: crate::fx::FX_ONE }),
        p.local_bounded(),
    ensures
        world_points_seq(p.points@, p.world_entries_spec(bt)) == p.points@,
{
    let s = crate::fx::FX_ONE as int;
    assert(crate::trig::reduce_spec(0) == 0);
    assert(crate::fx::tdiv(0, s) == 0);
    assert(crate::fx::tdiv(0, 2) == 0 && crate::fx::tdiv(0, 24) == 0 && crate::fx::tdiv(0, 720)
        == 0 && crate::fx::tdiv(0, 6) == 0 && crate::fx::tdiv(0, 120) == 0 && crate::fx::tdiv(
        0,
        5040,
    ) == 0);
    assert(cos_spec(0) == s);
    assert(sin_spec(0) == 0);
    let le = p.local_entries_spec();
    assert(le.0 == s && le.3 == s) by {
        crate::fx::lemma_tdiv_exact(s, s);
    }
    assert(le.1 == 0 && le.2 == 0) by {
        assert(0 * s == 0) by (nonlinear_arith);
        assert(-(0int) == 0);
    }
    assert(le.4 == 0 && le.5 == 0);
    let we = p.world_entries_spec(bt);
    assert(0 * 0 == 0 && s * 0 == 0 && 0 * s == 0) by (nonlinear_arith);
    assert(we.0 == s && we.3 == s) by {
        assert(0 * 0 == 0) by (nonlinear_arith);
        crate::fx::lemma_tdiv_exact(s, s);
    }
    assert(we.1 == 0 && we.2 == 0 && we.4 == 0 && we.5 == 0);
    assert forall|i: int| 0 <= i < p.points@.len() implies world_points_seq(
        p.points@,
        p.world_entries_spec(bt),
    )[i] == p.points@[i] by {
        let v = p.points@[i];
        assert(s * v.x == v.x * s && s * v.y == v.y * s && 0 * v.x == 0 && 0 * v.y == 0)
            by (nonlinear_arith);
        crate::fx::lemma_tdiv_exact(v.x as int, s);
        crate::fx::lemma_tdiv_exact(v.y as int, s);
    }
    assert(world_points_seq(p.points@, p.world_entries_spec(bt)) =~= p.points@);
}

} // verus!
