//! The collision constraint for one overlapping body pair: its contact
//! manifold, how the manifold is generated by reference/incident face
//! clipping, how it is warm-started from the previous frame, and the
//! iterative impulse solver.
//!
//! Bodies live in an arena (a plain vector) and constraints address them by
//! stable indices, so many constraints can share one body without aliasing.

use vstd::prelude::*;
use vstd::math::abs;
use crate::body::Body;
use crate::contact::{ContactID, ContactPoint};
use crate::fx::{tdiv, FX_ONE};
use crate::plane::{Plane, PLANE_LIM};
use crate::polygon::{plane_at, sig_face_index_spec, wf_points_seq};
use crate::vec2::Vec2;

verus! {

/// The incident face of the clip: the incident ring's significant face
/// opposite the collision normal.
pub open spec fn mf_inc_face(inc: Seq<Vec2>, nx: int, ny: int) -> Plane {
    plane_at(inc, sig_face_index_spec(inc, -nx, -ny))
}

/// Index of the reference face: the reference ring's significant face along
/// the collision normal.
pub open spec fn mf_ref_index(refp: Seq<Vec2>, nx: int, ny: int) -> int {
    sig_face_index_spec(refp, nx, ny)
}

/// First candidate's clip: the incident face cut by the face after the
/// reference face.
pub open spec fn mf_clip0(inc: Seq<Vec2>, refp: Seq<Vec2>, nx: int, ny: int) -> Option<(int, int)> {
    plane_at(refp, (mf_ref_index(refp, nx, ny) + 1) % (refp.len() as int)).intersection_spec(
        mf_inc_face(inc, nx, ny),
    )
}

/// Second candidate's clip: the incident face cut by the face before the
/// reference face.
pub open spec fn mf_clip1(inc: Seq<Vec2>, refp: Seq<Vec2>, nx: int, ny: int) -> Option<(int, int)> {
    plane_at(
        refp,
        (mf_ref_index(refp, nx, ny) + refp.len() as int - 1) % (refp.len() as int),
    ).intersection_spec(mf_inc_face(inc, nx, ny))
}

/// First candidate point: the clip against the next reference face if it
/// hit, else the incident face's start.
pub open spec fn mf_p0(inc: Seq<Vec2>, refp: Seq<Vec2>, nx: int, ny: int) -> (int, int) {
    let clip = mf_clip0(inc, refp, nx, ny);
    if clip is Some {
        clip->Some_0
    } else {
        (mf_inc_face(inc, nx, ny).start.x as int, mf_inc_face(inc, nx, ny).start.y as int)
    }
}

/// Second candidate point: the clip against the previous reference face if
/// it hit, else the incident face's end.
pub open spec fn mf_p1(inc: Seq<Vec2>, refp: Seq<Vec2>, nx: int, ny: int) -> (int, int) {
    let clip = mf_clip1(inc, refp, nx, ny);
    if clip is Some {
        clip->Some_0
    } else {
        (mf_inc_face(inc, nx, ny).end.x as int, mf_inc_face(inc, nx, ny).end.y as int)
    }
}

/// Identity of the first candidate: the incident face with its previous
/// neighbor, or with the clipping reference face when the clip hit.
pub open spec fn mf_id0(inc: Seq<Vec2>, refp: Seq<Vec2>, nx: int, ny: int) -> ContactID {
    let inc_i = sig_face_index_spec(inc, -nx, -ny);
    let inc_n = inc.len() as int;
    if mf_clip0(inc, refp, nx, ny) is Some {
        ContactID {
            edge_a_is_reference: false,
            edge_a: inc_i as usize,
            edge_b_is_reference: true,
            edge_b: ((mf_ref_index(refp, nx, ny) + 1) % (refp.len() as int)) as usize,
        }
    } else {
        ContactID {
            edge_a_is_reference: false,
            edge_a: inc_i as usize,
            edge_b_is_reference: false,
            edge_b: ((inc_i + inc_n - 1) % inc_n) as usize,
        }
    }
}

/// Identity of the second candidate: the incident face with its next
/// neighbor, or with the clipping reference face when the clip hit.
pub open spec fn mf_id1(inc: Seq<Vec2>, refp: Seq<Vec2>, nx: int, ny: int) -> ContactID {
    let inc_i = sig_face_index_spec(inc, -nx, -ny);
    let inc_n = inc.len() as int;
    if mf_clip1(inc, refp, nx, ny) is Some {
        ContactID {
            edge_a_is_reference: false,
            edge_a: inc_i as usize,
            edge_b_is_reference: true,
            edge_b: ((mf_ref_index(refp, nx, ny) + refp.len() as int - 1) % (
            refp.len() as int)) as usize,
        }
    } else {
        ContactID {
            edge_a_is_reference: false,
            edge_a: inc_i as usize,
            edge_b_is_reference: false,
            edge_b: ((inc_i + 1) % inc_n) as usize,
        }
    }
}

/// A candidate survives when it lies strictly inside the reference
/// half-plane `normal . p < c`.
pub open spec fn mf_keep(ref_face: Plane, px: int, py: int) -> bool {
    tdiv(ref_face.unit_normal_x_spec() * px + ref_face.unit_normal_y_spec() * py, FX_ONE as int)
        < ref_face.offset_spec()
}

/// The contact point emitted for a surviving candidate: its position, the
/// reference face's unit normal, the signed distance as penetration, the
/// faces, and the candidate's identity; the solver state starts at zero.
pub open spec fn mf_cp(inc_face: Plane, ref_face: Plane, px: int, py: int, id: ContactID)
    -> ContactPoint {
    ContactPoint {
        point: Vec2 { x: px as i128, y: py as i128 },
        normal: Vec2 {
            x: ref_face.unit_normal_x_spec() as i128,
            y: ref_face.unit_normal_y_spec() as i128,
        },
        penetration: ref_face.dist_spec(Vec2 { x: px as i128, y: py as i128 }) as i128,
        to_incident: Vec2 { x: 0, y: 0 },
        to_reference: Vec2 { x: 0, y: 0 },
        accumulated_normal_impulse: 0,
        accumulated_tangent_impulse: 0,
        accumulated_position_bias_impulse: 0,
        effective_mass: 0,
        tangent_mass: 0,
        bias: 0,
        id,
        incident_plane: inc_face,
        reference_plane: ref_face,
    }
}

/// The manifold that reference/incident face clipping produces, as a
/// mathematical value: up to two contact points, each the incident face's
/// endpoint or its clip against the reference face's neighbor, kept only if
/// it lies inside the reference half-plane, and carrying the identity of the
/// edges that made it.
pub open spec fn manifold_spec(inc: Seq<Vec2>, refp: Seq<Vec2>, nx: int, ny: int) -> Seq<
    ContactPoint,
> {
    let inc_face = mf_inc_face(inc, nx, ny);
    let ref_face = plane_at(refp, mf_ref_index(refp, nx, ny));
    let p0 = mf_p0(inc, refp, nx, ny);
    let p1 = mf_p1(inc, refp, nx, ny);
    let keep0 = mf_keep(ref_face, p0.0, p0.1);
    let keep1 = mf_keep(ref_face, p1.0, p1.1);
    let cp0 = mf_cp(inc_face, ref_face, p0.0, p0.1, mf_id0(inc, refp, nx, ny));
    let cp1 = mf_cp(inc_face, ref_face, p1.0, p1.1, mf_id1(inc, refp, nx, ny));
    if keep0 && keep1 {
        seq![cp0, cp1]
    } else if keep0 {
        seq![cp0]
    } else if keep1 {
        seq![cp1]
    } else {
        Seq::empty()
    }
}

/// Index of the first contact in `m`, from position `i` on, whose identity
/// is `id`; the sequence length when there is none.
pub open spec fn find_id_spec(m: Seq<ContactPoint>, id: ContactID, i: int) -> int
    decreases m.len() - i,
{
    if i < 0 || i >= m.len() {
        m.len() as int
    } else if m[i].id == id {
        i
    } else {
        find_id_spec(m, id, i + 1)
    }
}

/// A new contact warm-started from an old manifold: the accumulated impulses
/// of the first old contact with the same identity, if any, else the new
/// contact as it is.
pub open spec fn warm_started_one(old_m: Seq<ContactPoint>, c: ContactPoint) -> ContactPoint {
    let j = find_id_spec(old_m, c.id, 0);
    if j < old_m.len() {
        ContactPoint {
            accumulated_normal_impulse: old_m[j].accumulated_normal_impulse,
            accumulated_tangent_impulse: old_m[j].accumulated_tangent_impulse,
            accumulated_position_bias_impulse: old_m[j].accumulated_position_bias_impulse,
            ..c
        }
    } else {
        c
    }
}

/// The new manifold with every contact warm-started from the old one.
pub open spec fn update_manifold_spec(old_m: Seq<ContactPoint>, new_m: Seq<ContactPoint>) -> Seq<
    ContactPoint,
> {
    Seq::new(new_m.len(), |k: int| warm_started_one(old_m, new_m[k]))
}

/// A scan that found no matching identity before `j`, and one at `j` if `j`
/// is in range, pins down `find_id_spec`.
proof fn lemma_find_id(m: Seq<ContactPoint>, id: ContactID, i: int, j: int)
    requires
        0 <= i <= j <= m.len(),
        forall|l: int| i <= l < j ==> m[l].id != id,
        j < m.len() ==> m[j].id == id,
    ensures
        find_id_spec(m, id, i) == if j < m.len() {
            j
        } else {
            m.len() as int
        },
    decreases j - i,
{
    if i < j {
        lemma_find_id(m, id, i + 1, j);
    }
}

/// Warm-start law: when the new manifold holds a contact whose identity
/// first matches the old manifold's contact `j`, the updated manifold gives
/// that contact exactly the old contact's accumulated impulses.
pub proof fn lemma_warm_start_transfers(
    old_m: Seq<ContactPoint>,
    new_m: Seq<ContactPoint>,
    j: int,
    k: int,
)
    requires
        0 <= k < new_m.len(),
        0 <= j < old_m.len(),
        old_m[j].id == new_m[k].id,
        forall|l: int| 0 <= l < j ==> old_m[l].id != new_m[k].id,
    ensures
        update_manifold_spec(old_m, new_m)[k].accumulated_normal_impulse == old_m[j].accumulated_normal_impulse,
        update_manifold_spec(old_m, new_m)[k].accumulated_tangent_impulse == old_m[j].accumulated_tangent_impulse,
        update_manifold_spec(old_m, new_m)[k].accumulated_position_bias_impulse == old_m[j].accumulated_position_bias_impulse,
{
    lemma_find_id(old_m, new_m[k].id, 0, j);
}

/// Idempotence of warm starting: updating with a manifold whose contacts
/// carry the same identities in the same order (and the old identities are
/// distinct) leaves every accumulated impulse unchanged.
pub proof fn lemma_update_manifold_idempotent(old_m: Seq<ContactPoint>, new_m: Seq<ContactPoint>)
    requires
        new_m.len() == old_m.len(),
        forall|k: int| 0 <= k < new_m.len() ==> new_m[k].id == old_m[k].id,
        forall|k1: int, k2: int|
            0 <= k1 < k2 < old_m.len() ==> old_m[k1].id != old_m[k2].id,
    ensures
        forall|k: int|
            0 <= k < new_m.len() ==> (#[trigger] update_manifold_spec(old_m, new_m)[k]) == (
            ContactPoint {
                accumulated_normal_impulse: old_m[k].accumulated_normal_impulse,
                accumulated_tangent_impulse: old_m[k].accumulated_tangent_impulse,
                accumulated_position_bias_impulse: old_m[k].accumulated_position_bias_impulse,
                ..new_m[k]
            }),
{
    assert forall|k: int| 0 <= k < new_m.len() implies (#[trigger] update_manifold_spec(
        old_m,
        new_m,
    )[k]) == (ContactPoint {
        accumulated_normal_impulse: old_m[k].accumulated_normal_impulse,
        accumulated_tangent_impulse: old_m[k].accumulated_tangent_impulse,
        accumulated_position_bias_impulse: old_m[k].accumulated_position_bias_impulse,
        ..new_m[k]
    }) by {
        lemma_find_id(old_m, new_m[k].id, 0, k);
    }
}

/// Baumgarte bias factor 0.2 as a fixed-point scalar.
pub const BIAS_FACTOR_FX: i128 = 13107;

/// Allowed penetration (slop) 0.01 as a fixed-point scalar.
pub const ALLOWED_PENETRATION_FX: i128 = 655;

/// X coordinate of a body's center of gravity in world space.
pub open spec fn cog_x_spec(b: Body) -> int {
    crate::transform::apply_x_spec(b.transform_entries_spec(), b.center_of_gravity)
}

/// Y coordinate of a body's center of gravity in world space.
pub open spec fn cog_y_spec(b: Body) -> int {
    crate::transform::apply_y_spec(b.transform_entries_spec(), b.center_of_gravity)
}

/// A contact is prepared by `pre_solve` only when its geometry and
/// accumulators, and both centers of gravity, lie in the solver's operating
/// range; otherwise it is left untouched.
pub open spec fn presolve_ok(c: ContactPoint, inc: Body, refb: Body) -> bool {
    &&& c.point.bounded(0x1_0000_0000)
    &&& c.normal.bounded(0x2_0000)
    &&& abs(c.penetration as int) <= 0x1_0000_0000
    &&& abs(c.accumulated_normal_impulse as int) <= 0x10_0000_0000
    &&& abs(c.accumulated_tangent_impulse as int) <= 0x10_0000_0000
    &&& abs(c.accumulated_position_bias_impulse as int) <= 0x10_0000_0000
    &&& abs(cog_x_spec(inc)) <= 0x1_0000_0000
    &&& abs(cog_y_spec(inc)) <= 0x1_0000_0000
    &&& abs(cog_x_spec(refb)) <= 0x1_0000_0000
    &&& abs(cog_y_spec(refb)) <= 0x1_0000_0000
}

/// What `pre_solve` makes of one contact: moment arms from the centers of
/// gravity, effective normal and tangent masses, and the Baumgarte bias
/// (zero effective mass when the denominator is not positive, as for two
/// static bodies).
pub open spec fn presolve_contact_spec(c: ContactPoint, inc: Body, refb: Body, inv_dt: int)
    -> ContactPoint {
    if !presolve_ok(c, inc, refb) {
        c
    } else {
        let s = FX_ONE as int;
        let aix = c.point.x - cog_x_spec(inc);
        let aiy = c.point.y - cog_y_spec(inc);
        let arx = c.point.x - cog_x_spec(refb);
        let ary = c.point.y - cog_y_spec(refb);
        let ninv = inc.inv_mass_spec() + refb.inv_mass_spec();
        let inm = tdiv(aix * c.normal.x + aiy * c.normal.y, s);
        let rnm = tdiv(arx * c.normal.x + ary * c.normal.y, s);
        let nsqi = tdiv(aix * aix + aiy * aiy, s);
        let nsqr = tdiv(arx * arx + ary * ary, s);
        let netn = ninv + tdiv(inc.inv_inertia_spec() * (nsqi - tdiv(inm * inm, s)), s) + tdiv(
            refb.inv_inertia_spec() * (nsqr - tdiv(rnm * rnm, s)),
            s,
        );
        let eff = if netn <= 0 {
            0
        } else {
            tdiv(s * s, netn)
        };
        let itm = tdiv(aix * (-c.normal.y) + aiy * c.normal.x, s);
        let rtm = tdiv(arx * (-c.normal.y) + ary * c.normal.x, s);
        let nett = ninv + tdiv(inc.inv_inertia_spec() * (nsqi - tdiv(itm * itm, s)), s) + tdiv(
            refb.inv_inertia_spec() * (nsqr - tdiv(rtm * rtm, s)),
            s,
        );
        let tmass = if nett <= 0 {
            0
        } else {
            tdiv(s * s, nett)
        };
        let slack = if (c.penetration as int + ALLOWED_PENETRATION_FX as int) < 0 {
            c.penetration as int + ALLOWED_PENETRATION_FX as int
        } else {
            0
        };
        let bias = tdiv(tdiv((-BIAS_FACTOR_FX as int) * inv_dt, s) * slack, s);
        ContactPoint {
            to_incident: Vec2 { x: aix as i128, y: aiy as i128 },
            to_reference: Vec2 { x: arx as i128, y: ary as i128 },
            effective_mass: eff as i128,
            tangent_mass: tmass as i128,
            bias: bias as i128,
            ..c
        }
    }
}

/// The total velocity changes that re-applying the warm-started impulses of
/// the first `n` contacts makes, as
/// `(inc dvx, inc dvy, inc dw, ref dvx, ref dvy, ref dw)`.
pub open spec fn presolve_body_deltas(m: Seq<ContactPoint>, n: int, inc: Body, refb: Body) -> (
    int,
    int,
    int,
    int,
    int,
    int,
)
    decreases n,
{
    if n <= 0 {
        (0, 0, 0, 0, 0, 0)
    } else {
        let p = presolve_body_deltas(m, n - 1, inc, refb);
        let c = m[n - 1];
        if presolve_ok(c, inc, refb) {
            let s = FX_ONE as int;
            let ix = c.accumulated_impulse_x_spec();
            let iy = c.accumulated_impulse_y_spec();
            let aix = c.point.x - cog_x_spec(inc);
            let aiy = c.point.y - cog_y_spec(inc);
            let arx = c.point.x - cog_x_spec(refb);
            let ary = c.point.y - cog_y_spec(refb);
            let ci = tdiv(aix * iy - aiy * ix, s);
            let cr = tdiv(arx * (-iy) - ary * (-ix), s);
            (
                p.0 + tdiv(ix * inc.inv_mass_spec(), s),
                p.1 + tdiv(iy * inc.inv_mass_spec(), s),
                p.2 + tdiv(ci * inc.inv_inertia_spec(), s),
                p.3 + tdiv((-ix) * refb.inv_mass_spec(), s),
                p.4 + tdiv((-iy) * refb.inv_mass_spec(), s),
                p.5 + tdiv(cr * refb.inv_inertia_spec(), s),
            )
        } else {
            p
        }
    }
}

/// Everything one `pre_solve` pass makes of a manifold and its two bodies:
/// each contact prepared by [`presolve_contact_spec`], and both bodies
/// pushed by the warm-start deltas of [`presolve_body_deltas`].
pub open spec fn presolve_spec(m: Seq<ContactPoint>, inc: Body, refb: Body, inv_dt: int) -> (
    Seq<ContactPoint>,
    Body,
    Body,
) {
    let d = presolve_body_deltas(m, m.len() as int, inc, refb);
    (
        Seq::new(m.len(), |k: int| presolve_contact_spec(m[k], inc, refb, inv_dt)),
        Body {
            velocity: Vec2 {
                x: (inc.velocity.x + d.0) as i128,
                y: (inc.velocity.y + d.1) as i128,
            },
            angular_velocity: (inc.angular_velocity + d.2) as i128,
            ..inc
        },
        Body {
            velocity: Vec2 {
                x: (refb.velocity.x + d.3) as i128,
                y: (refb.velocity.y + d.4) as i128,
            },
            angular_velocity: (refb.angular_velocity + d.5) as i128,
            ..refb
        },
    )
}

/// A contact enters a solver iteration only when its own state and both
/// bodies' velocities lie in the solver's operating range.
pub open spec fn solve_ranges_ok(c: ContactPoint, inc: Body, refb: Body) -> bool {
    &&& c.solver_bounded()
    &&& inc.velocity.bounded(0x40_0000_0000)
    &&& refb.velocity.bounded(0x40_0000_0000)
    &&& abs(inc.angular_velocity as int) <= 0x4000_0000
    &&& abs(refb.angular_velocity as int) <= 0x4000_0000
}

/// The clamped new total of the accumulated normal impulse after one
/// iteration: the old total plus
/// `effective_mass * (-(relative velocity . normal) + bias)`, floored at
/// zero.
pub open spec fn solve_new_acc_spec(c: ContactPoint, inc: Body, refb: Body) -> int {
    let s = FX_ONE as int;
    let rx = inc.velocity.x + tdiv((-inc.angular_velocity) * c.to_incident.y, s) - refb.velocity.x
        - tdiv((-refb.angular_velocity) * c.to_reference.y, s);
    let ry = inc.velocity.y + tdiv(inc.angular_velocity * c.to_incident.x, s) - refb.velocity.y
        - tdiv(refb.angular_velocity * c.to_reference.x, s);
    let vn = tdiv(rx * c.normal.x + ry * c.normal.y, s);
    let imp = tdiv(c.effective_mass * ((-vn) + c.bias), s);
    let sum = c.accumulated_normal_impulse + imp;
    if sum > 0 {
        sum
    } else {
        0
    }
}

/// One sequential-impulse step on one contact: update the accumulated
/// normal impulse with a non-negative clamp, and apply only the delta to
/// both bodies, in opposite directions, with the matching angular impulses.
/// A contact or state outside the operating range is left unchanged.
pub open spec fn solve_step_spec(c: ContactPoint, inc: Body, refb: Body) -> (
    ContactPoint,
    Body,
    Body,
) {
    if !solve_ranges_ok(c, inc, refb) {
        (c, inc, refb)
    } else {
        let s = FX_ONE as int;
        let new_acc = solve_new_acc_spec(c, inc, refb);
        if new_acc > 0x10_0000_0000 {
            (c, inc, refb)
        } else {
            let delta = new_acc - c.accumulated_normal_impulse;
            let jx = tdiv(c.normal.x * delta, s);
            let jy = tdiv(c.normal.y * delta, s);
            let ci = tdiv(c.to_incident.x * jy - c.to_incident.y * jx, s);
            let cr = tdiv(c.to_reference.x * (-jy) - c.to_reference.y * (-jx), s);
            let c1 = ContactPoint { accumulated_normal_impulse: new_acc as i128, ..c };
            let inc1 = Body {
                velocity: Vec2 {
                    x: (inc.velocity.x + tdiv(jx * inc.inv_mass_spec(), s)) as i128,
                    y: (inc.velocity.y + tdiv(jy * inc.inv_mass_spec(), s)) as i128,
                },
                angular_velocity: (inc.angular_velocity + tdiv(
                    ci * inc.inv_inertia_spec(),
                    s,
                )) as i128,
                ..inc
            };
            let ref1 = Body {
                velocity: Vec2 {
                    x: (refb.velocity.x + tdiv((-jx) * refb.inv_mass_spec(), s)) as i128,
                    y: (refb.velocity.y + tdiv((-jy) * refb.inv_mass_spec(), s)) as i128,
                },
                angular_velocity: (refb.angular_velocity + tdiv(
                    cr * refb.inv_inertia_spec(),
                    s,
                )) as i128,
                ..refb
            };
            (c1, inc1, ref1)
        }
    }
}

/// One solver pass over the first `n` contacts, each step seeing the
/// velocities the previous steps left behind (Gauss-Seidel order).
pub open spec fn solve_fold(m: Seq<ContactPoint>, n: int, inc: Body, refb: Body) -> (
    Seq<ContactPoint>,
    Body,
    Body,
)
    decreases n,
{
    if n <= 0 {
        (m, inc, refb)
    } else {
        let p = solve_fold(m, n - 1, inc, refb);
        let st = solve_step_spec(m[n - 1], p.1, p.2);
        (p.0.update(n - 1, st.0), st.1, st.2)
    }
}

/// A solver pass leaves contacts at positions the pass has not reached
/// unchanged, and preserves the manifold length.
pub proof fn lemma_solve_fold_frame(m: Seq<ContactPoint>, n: int, inc: Body, refb: Body)
    requires
        0 <= n <= m.len(),
    ensures
        solve_fold(m, n, inc, refb).0.len() == m.len(),
        forall|j: int| n <= j < m.len() ==> solve_fold(m, n, inc, refb).0[j] == m[j],
    decreases n,
{
    if n > 0 {
        lemma_solve_fold_frame(m, n - 1, inc, refb);
    }
}

/// The accumulated normal impulse is never negative at any point during a
/// solver pass: every step either clamps it at zero or leaves it unchanged.
pub proof fn lemma_solve_fold_nonneg(m: Seq<ContactPoint>, n: int, inc: Body, refb: Body)
    requires
        0 <= n <= m.len(),
        forall|k: int| 0 <= k < m.len() ==> (#[trigger] m[k]).accumulated_normal_impulse >= 0,
    ensures
        forall|k: int|
            0 <= k < m.len() ==> (#[trigger] solve_fold(m, n, inc, refb).0[k]).accumulated_normal_impulse
                >= 0,
    decreases n,
{
    if n > 0 {
        lemma_solve_fold_nonneg(m, n - 1, inc, refb);
        lemma_solve_fold_frame(m, n - 1, inc, refb);
        let p = solve_fold(m, n - 1, inc, refb);
        let st = solve_step_spec(m[n - 1], p.1, p.2);
        assert(st.0.accumulated_normal_impulse >= 0);
        assert forall|k: int| 0 <= k < m.len() implies (#[trigger] solve_fold(
            m,
            n,
            inc,
            refb,
        ).0[k]).accumulated_normal_impulse >= 0 by {
            if k != n - 1 {
                assert(solve_fold(m, n, inc, refb).0[k] == p.0[k]);
            }
        }
    }
}

/// The manifold of the first entry of a pair-to-constraint map, from
/// position `idx` on, whose key and role assignment both match; empty when
/// there is none.
pub open spec fn map_prev_manifold(
    m: Seq<((usize, usize), CollisionConstraint)>,
    key: (usize, usize),
    inc: usize,
    refh: usize,
    idx: int,
) -> Seq<ContactPoint>
    decreases m.len() - idx,
{
    if idx < 0 || idx >= m.len() {
        Seq::empty()
    } else if m[idx].0 == key && m[idx].1.incident_body == inc && m[idx].1.reference_body == refh {
        m[idx].1.manifold@
    } else {
        map_prev_manifold(m, key, inc, refh, idx + 1)
    }
}

/// The collision constraint of one body pair: the manifold, and the arena
/// indices of the incident and reference body.
#[derive(Debug)]
pub struct CollisionConstraint {
    pub manifold: Vec<ContactPoint>,
    pub incident_body: usize,
    pub reference_body: usize,
}

impl CollisionConstraint {
    pub fn new(manifold: Vec<ContactPoint>, incident_body: usize, reference_body: usize) -> (r:
        CollisionConstraint)
        ensures
            r.manifold == manifold,
            r.incident_body == incident_body,
            r.reference_body == reference_body,
    {
        CollisionConstraint { manifold, incident_body, reference_body }
    }

    /// Replace the manifold with a new one, copying the accumulated impulses
    /// of every old contact onto the new contact with the same identity:
    /// warm starting across frames.
    pub fn update_manifold(&mut self, manifold: Vec<ContactPoint>)
        ensures
            final(self).manifold@ == update_manifold_spec(old(self).manifold@, manifold@),
            final(self).incident_body == old(self).incident_body,
            final(self).reference_body == old(self).reference_body,
    {
        let mut result: Vec<ContactPoint> = Vec::new();
        let mut k: usize = 0;
        while k < manifold.len()
            invariant
                k <= manifold.len(),
                result@.len() == k,
                self.manifold@ == old(self).manifold@,
                self.incident_body == old(self).incident_body,
                self.reference_body == old(self).reference_body,
                forall|l: int|
                    0 <= l < k ==> (#[trigger] result@[l]) == warm_started_one(
                        old(self).manifold@,
                        manifold@[l],
                    ),
            decreases manifold.len() - k,
        {
            let mut c = manifold[k];
            let mut j: usize = 0;
            while j < self.manifold.len() && !(self.manifold[j].id == c.id)
                invariant
                    self.manifold@ == old(self).manifold@,
                    j <= self.manifold@.len(),
                    c == manifold@[k as int],
                    k < manifold@.len(),
                    forall|l: int| 0 <= l < j ==> (#[trigger] self.manifold@[l]).id != c.id,
                decreases self.manifold@.len() - j,
            {
                j += 1;
            }
            proof {
                lemma_find_id(self.manifold@, c.id, 0, j as int);
            }
            if j < self.manifold.len() {
                let other = self.manifold[j];
                c.warm_start(&other);
            }
            result.push(c);
            k += 1;
        }
        self.manifold = result;
        proof {
            assert(final(self).manifold@ =~= update_manifold_spec(
                old(self).manifold@,
                manifold@,
            ));
        }
    }

    /// Build the contact manifold for a colliding pair: clip the incident
    /// polygon's deepest face against the faces adjacent to the reference
    /// polygon's face along `normal`, and keep the candidates inside the
    /// reference half-plane. The caller must have established the collision,
    /// so both bodies have colliders with valid world vertex rings.
    #[verifier::rlimit(100)]
    pub fn generate_manifold(normal: Vec2, incident_body: &Body, reference_body: &Body) -> (r: Vec<
        ContactPoint,
    >)
        requires
            incident_body.wf(),
            reference_body.wf(),
            incident_body.collider is Some,
            reference_body.collider is Some,
            wf_points_seq(incident_body.world_collider_points_spec()),
            wf_points_seq(reference_body.world_collider_points_spec()),
            normal.bounded(0x2_0000),
        ensures
            r@ == manifold_spec(
                incident_body.world_collider_points_spec(),
                reference_body.world_collider_points_spec(),
                normal.x as int,
                normal.y as int,
            ),
            r@.len() <= 2,
            forall|k: int| 0 <= k < r@.len() ==> (#[trigger] r@[k]).point.bounded(PLANE_LIM as int),
            forall|k: int|
                0 <= k < r@.len() ==> (#[trigger] r@[k]).normal.bounded(FX_ONE as int) && abs(
                    r@[k].penetration as int,
                ) <= 4 * PLANE_LIM as int && r@[k].accumulated_normal_impulse == 0
                    && r@[k].accumulated_tangent_impulse == 0
                    && r@[k].accumulated_position_bias_impulse == 0,
    {
        let incident_polygon = match incident_body.collider_in_world() {
            Some(p) => p,
            None => unreached(),
        };
        let reference_polygon = match reference_body.collider_in_world() {
            Some(p) => p,
            None => unreached(),
        };
        Self::clip_manifold(&incident_polygon, &reference_polygon, normal)
    }

    /// The clipping core of manifold generation, on two world-space vertex
    /// rings.
    #[verifier::rlimit(100)]
    fn clip_manifold(incident_polygon: &crate::polygon::Polygon, reference_polygon: &crate::polygon::Polygon, normal: Vec2) -> (r: Vec<
        ContactPoint,
    >)
        requires
            wf_points_seq(incident_polygon.points@),
            wf_points_seq(reference_polygon.points@),
            normal.bounded(0x2_0000),
        ensures
            r@ == manifold_spec(
                incident_polygon.points@,
                reference_polygon.points@,
                normal.x as int,
                normal.y as int,
            ),
            r@.len() <= 2,
            forall|k: int| 0 <= k < r@.len() ==> (#[trigger] r@[k]).point.bounded(PLANE_LIM as int),
            forall|k: int|
                0 <= k < r@.len() ==> (#[trigger] r@[k]).normal.bounded(FX_ONE as int) && abs(
                    r@[k].penetration as int,
                ) <= 4 * PLANE_LIM as int && r@[k].accumulated_normal_impulse == 0
                    && r@[k].accumulated_tangent_impulse == 0
                    && r@[k].accumulated_position_bias_impulse == 0,
    {
        let ghost gi = incident_polygon.points@;
        let ghost gr = reference_polygon.points@;
        let ghost nx = normal.x as int;
        let ghost ny = normal.y as int;
        let neg_normal = normal.neg();
        let (incident_face, incident_index) = incident_polygon.get_significant_face_with_index(
            neg_normal,
        );
        proof {
            assert(incident_index as int == sig_face_index_spec(gi, -nx, -ny));
            assert(incident_face == mf_inc_face(gi, nx, ny));
        }
        let (reference_face, reference_index) = reference_polygon.get_significant_face_with_index(
            normal,
        );
        proof {
            assert(reference_index as int == mf_ref_index(gr, nx, ny));
            assert(reference_face == plane_at(gr, mf_ref_index(gr, nx, ny)));
        }
        let next_face_index = reference_polygon.increment_side(reference_index);
        let next_face = reference_polygon.get_plane(next_face_index);
        let prev_face_index = reference_polygon.decrement_side(reference_index);
        let prev_face = reference_polygon.get_plane(prev_face_index);

        let mut candidate0 = incident_face.start();
        let mut candidate1 = incident_face.end();
        let mut id0 = ContactID::new(
            false,
            incident_index,
            false,
            incident_polygon.decrement_side(incident_index),
        );
        let mut id1 = ContactID::new(
            false,
            incident_index,
            false,
            incident_polygon.increment_side(incident_index),
        );

        if let Some(prev_face_clip) = prev_face.find_intersection(&incident_face) {
            candidate1 = prev_face_clip;
            id1.set_second_edge(true, prev_face_index);
        }
        proof {
            assert(mf_clip1(gi, gr, nx, ny) == prev_face.intersection_spec(incident_face));
            assert(candidate1.x as int == mf_p1(gi, gr, nx, ny).0 && candidate1.y as int == mf_p1(
                gi,
                gr,
                nx,
                ny,
            ).1);
            assert(candidate1 == (Vec2 {
                x: mf_p1(gi, gr, nx, ny).0 as i128,
                y: mf_p1(gi, gr, nx, ny).1 as i128,
            }));
            assert(id1 == mf_id1(gi, gr, nx, ny));
        }
        if let Some(next_face_clip) = next_face.find_intersection(&incident_face) {
            candidate0 = next_face_clip;
            id0.set_second_edge(true, next_face_index);
        }
        proof {
            assert(mf_clip0(gi, gr, nx, ny) == next_face.intersection_spec(incident_face));
            assert(candidate0.x as int == mf_p0(gi, gr, nx, ny).0 && candidate0.y as int == mf_p0(
                gi,
                gr,
                nx,
                ny,
            ).1);
            assert(candidate0 == (Vec2 {
                x: mf_p0(gi, gr, nx, ny).0 as i128,
                y: mf_p0(gi, gr, nx, ny).1 as i128,
            }));
            assert(id0 == mf_id0(gi, gr, nx, ny));
        }
        let (nf, c) = reference_face.get_normal_form();
        let keep0 = nf.dot(candidate0) < c;
        let keep1 = nf.dot(candidate1) < c;
        proof {
            assert(keep0 == mf_keep(reference_face, mf_p0(gi, gr, nx, ny).0, mf_p0(gi, gr, nx, ny).1));
            assert(keep1 == mf_keep(reference_face, mf_p1(gi, gr, nx, ny).0, mf_p1(gi, gr, nx, ny).1));
        }
        let mut out: Vec<ContactPoint> = Vec::new();
        if keep0 {
            let penetration = reference_face.distance_to(&candidate0);
            let built = ContactPoint::new(
                candidate0,
                nf,
                penetration,
                incident_face,
                reference_face,
                id0,
            );
            proof {
                assert(built == mf_cp(
                    incident_face,
                    reference_face,
                    mf_p0(gi, gr, nx, ny).0,
                    mf_p0(gi, gr, nx, ny).1,
                    mf_id0(gi, gr, nx, ny),
                ));
            }
            out.push(built);
        }
        if keep1 {
            let penetration = reference_face.distance_to(&candidate1);
            let built = ContactPoint::new(
                candidate1,
                nf,
                penetration,
                incident_face,
                reference_face,
                id1,
            );
            proof {
                assert(built == mf_cp(
                    incident_face,
                    reference_face,
                    mf_p1(gi, gr, nx, ny).0,
                    mf_p1(gi, gr, nx, ny).1,
                    mf_id1(gi, gr, nx, ny),
                ));
            }
            out.push(built);
        }
        proof {
            assert(out@ =~= manifold_spec(gi, gr, nx, ny));
        }
        out
    }

    /// Prepare every contact for the solver: recompute moment arms, the
    /// effective normal and tangent masses, the Baumgarte bias, and
    /// re-apply the warm-started accumulated impulse to both bodies so the
    /// first solver iteration starts from the previous frame's converged
    /// state. A contact outside the solver's operating range is left
    /// untouched.
    pub fn pre_solve(&mut self, inv_dt: i128, incident_body: &mut Body, reference_body: &mut Body)
        requires
            0 < inv_dt <= 0x1000_0000,
            old(incident_body).pose_wf(),
            old(incident_body).mass_ok(),
            old(reference_body).pose_wf(),
            old(reference_body).mass_ok(),
            old(incident_body).velocity.bounded(0x40_0000_0000_0000_0000),
            old(reference_body).velocity.bounded(0x40_0000_0000_0000_0000),
            abs(old(incident_body).angular_velocity as int) <= 0x40_0000_0000_0000_0000,
            abs(old(reference_body).angular_velocity as int) <= 0x40_0000_0000_0000_0000,
            old(self).manifold@.len() <= 8,
        ensures
            final(self).incident_body == old(self).incident_body,
            final(self).reference_body == old(self).reference_body,
            final(self).manifold@.len() == old(self).manifold@.len(),
            forall|k: int|
                0 <= k < old(self).manifold@.len() ==> (#[trigger] final(self).manifold@[k])
                    == presolve_contact_spec(
                    old(self).manifold@[k],
                    *old(incident_body),
                    *old(reference_body),
                    inv_dt as int,
                ),
            *final(incident_body) == (Body {
                velocity: final(incident_body).velocity,
                angular_velocity: final(incident_body).angular_velocity,
                ..*old(incident_body)
            }),
            *final(reference_body) == (Body {
                velocity: final(reference_body).velocity,
                angular_velocity: final(reference_body).angular_velocity,
                ..*old(reference_body)
            }),
            ({
                let d = presolve_body_deltas(
                    old(self).manifold@,
                    old(self).manifold@.len() as int,
                    *old(incident_body),
                    *old(reference_body),
                );
                &&& final(incident_body).velocity.x as int == old(incident_body).velocity.x + d.0
                &&& final(incident_body).velocity.y as int == old(incident_body).velocity.y + d.1
                &&& final(incident_body).angular_velocity as int == old(
                    incident_body,
                ).angular_velocity + d.2
                &&& final(reference_body).velocity.x as int == old(reference_body).velocity.x
                    + d.3
                &&& final(reference_body).velocity.y as int == old(reference_body).velocity.y
                    + d.4
                &&& final(reference_body).angular_velocity as int == old(
                    reference_body,
                ).angular_velocity + d.5
            }),
            ({
                let st = presolve_spec(
                    old(self).manifold@,
                    *old(incident_body),
                    *old(reference_body),
                    inv_dt as int,
                );
                &&& final(self).manifold@ == st.0
                &&& *final(incident_body) == st.1
                &&& *final(reference_body) == st.2
            }),
    {
        let ghost ob_i = *incident_body;
        let ghost ob_r = *reference_body;
        let ghost om = self.manifold@;
        let icog = incident_body.center_of_gravity();
        let rcog = reference_body.center_of_gravity();
        let mut k: usize = 0;
        while k < self.manifold.len()
            invariant
                0 < inv_dt <= 0x1000_0000,
                ob_i.pose_wf(),
                ob_i.mass_ok(),
                ob_r.pose_wf(),
                ob_r.mass_ok(),
                ob_i.velocity.bounded(0x40_0000_0000_0000_0000),
                ob_r.velocity.bounded(0x40_0000_0000_0000_0000),
                abs(ob_i.angular_velocity as int) <= 0x40_0000_0000_0000_0000,
                abs(ob_r.angular_velocity as int) <= 0x40_0000_0000_0000_0000,
                om.len() <= 8,
                k <= self.manifold@.len(),
                self.manifold@.len() == om.len(),
                self.incident_body == old(self).incident_body,
                self.reference_body == old(self).reference_body,
                om == old(self).manifold@,
                ob_i == *old(incident_body),
                ob_r == *old(reference_body),
                icog.x as int == cog_x_spec(ob_i),
                icog.y as int == cog_y_spec(ob_i),
                rcog.x as int == cog_x_spec(ob_r),
                rcog.y as int == cog_y_spec(ob_r),
                *incident_body == (Body {
                    velocity: incident_body.velocity,
                    angular_velocity: incident_body.angular_velocity,
                    ..ob_i
                }),
                *reference_body == (Body {
                    velocity: reference_body.velocity,
                    angular_velocity: reference_body.angular_velocity,
                    ..ob_r
                }),
                incident_body.velocity.x as int == ob_i.velocity.x + presolve_body_deltas(
                    om,
                    k as int,
                    ob_i,
                    ob_r,
                ).0,
                incident_body.velocity.y as int == ob_i.velocity.y + presolve_body_deltas(
                    om,
                    k as int,
                    ob_i,
                    ob_r,
                ).1,
                incident_body.angular_velocity as int == ob_i.angular_velocity
                    + presolve_body_deltas(om, k as int, ob_i, ob_r).2,
                reference_body.velocity.x as int == ob_r.velocity.x + presolve_body_deltas(
                    om,
                    k as int,
                    ob_i,
                    ob_r,
                ).3,
                reference_body.velocity.y as int == ob_r.velocity.y + presolve_body_deltas(
                    om,
                    k as int,
                    ob_i,
                    ob_r,
                ).4,
                reference_body.angular_velocity as int == ob_r.angular_velocity
                    + presolve_body_deltas(om, k as int, ob_i, ob_r).5,
                incident_body.velocity.bounded(
                    0x40_0000_0000_0000_0000 + (k as int) * 0x100_0000_0000_0000,
                ),
                reference_body.velocity.bounded(
                    0x40_0000_0000_0000_0000 + (k as int) * 0x100_0000_0000_0000,
                ),
                abs(incident_body.angular_velocity as int) <= 0x40_0000_0000_0000_0000 + (
                k as int) * 0x4_0000_0000_0000_0000,
                abs(reference_body.angular_velocity as int) <= 0x40_0000_0000_0000_0000 + (
                k as int) * 0x4_0000_0000_0000_0000,
                forall|j: int|
                    0 <= j < k ==> (#[trigger] self.manifold@[j]) == presolve_contact_spec(
                        om[j],
                        ob_i,
                        ob_r,
                        inv_dt as int,
                    ),
                forall|j: int| k <= j < om.len() ==> (#[trigger] self.manifold@[j]) == om[j],
            decreases om.len() - k,
        {
            let c_orig = self.manifold[k];
            let c2 = Self::presolve_one(
                c_orig,
                icog,
                rcog,
                inv_dt,
                incident_body,
                reference_body,
                Ghost(ob_i),
                Ghost(ob_r),
            );
            let slot = &mut self.manifold[k];
            *slot = c2;
            k += 1;
        }
        proof {
            assert(self.manifold@ =~= presolve_spec(om, ob_i, ob_r, inv_dt as int).0);
            assert(*incident_body == presolve_spec(om, ob_i, ob_r, inv_dt as int).1);
            assert(*reference_body == presolve_spec(om, ob_i, ob_r, inv_dt as int).2);
        }
    }

    /// Prepare one contact and re-apply its warm-started impulse.
    #[verifier::rlimit(100)]
    fn presolve_one(
        c_orig: ContactPoint,
        icog: Vec2,
        rcog: Vec2,
        inv_dt: i128,
        incident_body: &mut Body,
        reference_body: &mut Body,
        Ghost(ob_i): Ghost<Body>,
        Ghost(ob_r): Ghost<Body>,
    ) -> (c2: ContactPoint)
        requires
            0 < inv_dt <= 0x1000_0000,
            ob_i.pose_wf(),
            ob_i.mass_ok(),
            ob_r.pose_wf(),
            ob_r.mass_ok(),
            icog.x as int == cog_x_spec(ob_i),
            icog.y as int == cog_y_spec(ob_i),
            rcog.x as int == cog_x_spec(ob_r),
            rcog.y as int == cog_y_spec(ob_r),
            *old(incident_body) == (Body {
                velocity: old(incident_body).velocity,
                angular_velocity: old(incident_body).angular_velocity,
                ..ob_i
            }),
            *old(reference_body) == (Body {
                velocity: old(reference_body).velocity,
                angular_velocity: old(reference_body).angular_velocity,
                ..ob_r
            }),
            old(incident_body).velocity.bounded(0x1_0000_0000_0000_0000_0000),
            old(reference_body).velocity.bounded(0x1_0000_0000_0000_0000_0000),
            abs(old(incident_body).angular_velocity as int) <= 0x1_0000_0000_0000_0000_0000,
            abs(old(reference_body).angular_velocity as int) <= 0x1_0000_0000_0000_0000_0000,
        ensures
            c2 == presolve_contact_spec(c_orig, ob_i, ob_r, inv_dt as int),
            *final(incident_body) == (Body {
                velocity: final(incident_body).velocity,
                angular_velocity: final(incident_body).angular_velocity,
                ..*old(incident_body)
            }),
            *final(reference_body) == (Body {
                velocity: final(reference_body).velocity,
                angular_velocity: final(reference_body).angular_velocity,
                ..*old(reference_body)
            }),
            !presolve_ok(c_orig, ob_i, ob_r) ==> *final(incident_body) == *old(incident_body)
                && *final(reference_body) == *old(reference_body),
            presolve_ok(c_orig, ob_i, ob_r) ==> ({
                let s = FX_ONE as int;
                let ix = c_orig.accumulated_impulse_x_spec();
                let iy = c_orig.accumulated_impulse_y_spec();
                let aix = c_orig.point.x - cog_x_spec(ob_i);
                let aiy = c_orig.point.y - cog_y_spec(ob_i);
                let arx = c_orig.point.x - cog_x_spec(ob_r);
                let ary = c_orig.point.y - cog_y_spec(ob_r);
                let ci = tdiv(aix * iy - aiy * ix, s);
                let cr = tdiv(arx * (-iy) - ary * (-ix), s);
                &&& final(incident_body).velocity.x as int == old(incident_body).velocity.x + tdiv(
                    ix * ob_i.inv_mass_spec(),
                    s,
                )
                &&& final(incident_body).velocity.y as int == old(incident_body).velocity.y + tdiv(
                    iy * ob_i.inv_mass_spec(),
                    s,
                )
                &&& final(incident_body).angular_velocity as int == old(
                    incident_body,
                ).angular_velocity + tdiv(ci * ob_i.inv_inertia_spec(), s)
                &&& final(reference_body).velocity.x as int == old(reference_body).velocity.x
                    + tdiv((-ix) * ob_r.inv_mass_spec(), s)
                &&& final(reference_body).velocity.y as int == old(reference_body).velocity.y
                    + tdiv((-iy) * ob_r.inv_mass_spec(), s)
                &&& final(reference_body).angular_velocity as int == old(
                    reference_body,
                ).angular_velocity + tdiv(cr * ob_r.inv_inertia_spec(), s)
                &&& abs(tdiv(ix * ob_i.inv_mass_spec(), s)) <= 0x100_0000_0000_0000
                &&& abs(tdiv(iy * ob_i.inv_mass_spec(), s)) <= 0x100_0000_0000_0000
                &&& abs(tdiv((-ix) * ob_r.inv_mass_spec(), s)) <= 0x100_0000_0000_0000
                &&& abs(tdiv((-iy) * ob_r.inv_mass_spec(), s)) <= 0x100_0000_0000_0000
                &&& abs(tdiv(ci * ob_i.inv_inertia_spec(), s)) <= 0x4_0000_0000_0000_0000
                &&& abs(tdiv(cr * ob_r.inv_inertia_spec(), s)) <= 0x4_0000_0000_0000_0000
            }),
    {
        let ok = icog.x >= -0x1_0000_0000 && icog.x <= 0x1_0000_0000 && icog.y >= -0x1_0000_0000
            && icog.y <= 0x1_0000_0000 && rcog.x >= -0x1_0000_0000 && rcog.x <= 0x1_0000_0000
            && rcog.y >= -0x1_0000_0000 && rcog.y <= 0x1_0000_0000 && c_orig.point.x
            >= -0x1_0000_0000 && c_orig.point.x <= 0x1_0000_0000 && c_orig.point.y
            >= -0x1_0000_0000 && c_orig.point.y <= 0x1_0000_0000 && c_orig.normal.x >= -0x2_0000
            && c_orig.normal.x <= 0x2_0000 && c_orig.normal.y >= -0x2_0000 && c_orig.normal.y
            <= 0x2_0000 && c_orig.penetration >= -0x1_0000_0000 && c_orig.penetration
            <= 0x1_0000_0000 && c_orig.accumulated_normal_impulse >= -0x10_0000_0000
            && c_orig.accumulated_normal_impulse <= 0x10_0000_0000
            && c_orig.accumulated_tangent_impulse >= -0x10_0000_0000
            && c_orig.accumulated_tangent_impulse <= 0x10_0000_0000
            && c_orig.accumulated_position_bias_impulse >= -0x10_0000_0000
            && c_orig.accumulated_position_bias_impulse <= 0x10_0000_0000;
        proof {
            assert(ok == presolve_ok(c_orig, ob_i, ob_r));
        }
        if !ok {
            return c_orig;
        }
        let mut c = c_orig;
        let ti = c.point().minus(icog);
        let tr = c.point().minus(rcog);
        c.set_to_incident(ti);
        c.set_to_reference(tr);
        let ninv = incident_body.inv_mass() + reference_body.inv_mass();
        let ii = incident_body.inv_inertia();
        let ri = reference_body.inv_inertia();
        let normal = c_orig.normal;
        let tangent = normal.perp();
        proof {
            crate::vec2::lemma_dot_spec_bound_div(ti, normal, 0x2_0000_0000, 0x2_0000, 0x8_0000_0000);
            crate::vec2::lemma_dot_spec_bound_div(tr, normal, 0x2_0000_0000, 0x2_0000, 0x8_0000_0000);
            crate::vec2::lemma_dot_spec_bound_div(ti, tangent, 0x2_0000_0000, 0x2_0000, 0x8_0000_0000);
            crate::vec2::lemma_dot_spec_bound_div(tr, tangent, 0x2_0000_0000, 0x2_0000, 0x8_0000_0000);
            crate::vec2::lemma_dot_spec_bound_div(
                ti,
                ti,
                0x2_0000_0000,
                0x2_0000_0000,
                0x8_0000_0000_0000,
            );
            crate::vec2::lemma_dot_spec_bound_div(
                tr,
                tr,
                0x2_0000_0000,
                0x2_0000_0000,
                0x8_0000_0000_0000,
            );
        }
        let inm = ti.dot(normal);
        let rnm = tr.dot(normal);
        let nsqi = ti.dot(ti);
        let nsqr = tr.dot(tr);
        let itm = ti.dot(tangent);
        let rtm = tr.dot(tangent);
        proof {
            crate::fx::lemma_fx_mul_bound(
                inm as int,
                inm as int,
                0x8_0000_0000,
                0x8_0000_0000,
                0x4_0000_0000_0000_0000,
            );
            crate::fx::lemma_fx_mul_bound(
                rnm as int,
                rnm as int,
                0x8_0000_0000,
                0x8_0000_0000,
                0x4_0000_0000_0000_0000,
            );
            crate::fx::lemma_fx_mul_bound(
                itm as int,
                itm as int,
                0x8_0000_0000,
                0x8_0000_0000,
                0x4_0000_0000_0000_0000,
            );
            crate::fx::lemma_fx_mul_bound(
                rtm as int,
                rtm as int,
                0x8_0000_0000,
                0x8_0000_0000,
                0x4_0000_0000_0000_0000,
            );
        }
        let inmsq = crate::fx::fx_mul(inm, inm);
        let rnmsq = crate::fx::fx_mul(rnm, rnm);
        let itmsq = crate::fx::fx_mul(itm, itm);
        let rtmsq = crate::fx::fx_mul(rtm, rtm);
        proof {
            crate::fx::lemma_fx_mul_bound(
                ii as int,
                nsqi as int - inmsq as int,
                0x100_0000,
                0x8_0000_0000_0000_0000,
                0x8_0000_0000_0000_0000_0000,
            );
            crate::fx::lemma_fx_mul_bound(
                ri as int,
                nsqr as int - rnmsq as int,
                0x100_0000,
                0x8_0000_0000_0000_0000,
                0x8_0000_0000_0000_0000_0000,
            );
            crate::fx::lemma_fx_mul_bound(
                ii as int,
                nsqi as int - itmsq as int,
                0x100_0000,
                0x8_0000_0000_0000_0000,
                0x8_0000_0000_0000_0000_0000,
            );
            crate::fx::lemma_fx_mul_bound(
                ri as int,
                nsqr as int - rtmsq as int,
                0x100_0000,
                0x8_0000_0000_0000_0000,
                0x8_0000_0000_0000_0000_0000,
            );
        }
        let netn = ninv + crate::fx::fx_mul(ii, nsqi - inmsq) + crate::fx::fx_mul(ri, nsqr - rnmsq);
        let nett = ninv + crate::fx::fx_mul(ii, nsqi - itmsq) + crate::fx::fx_mul(ri, nsqr - rtmsq);
        let eff: i128 = if netn <= 0 {
            0
        } else {
            proof {
                assert(FX_ONE as int * FX_ONE as int <= 0x1_0000_0000 * netn as int)
                    by (nonlinear_arith)
                    requires
                        netn as int >= 1,
                        FX_ONE as int == 0x1_0000,
                ;
                crate::fx::lemma_tdiv_bound_by(
                    FX_ONE as int * FX_ONE as int,
                    netn as int,
                    0x1_0000_0000,
                );
            }
            crate::fx::div_trunc(FX_ONE * FX_ONE, netn)
        };
        let tmass: i128 = if nett <= 0 {
            0
        } else {
            proof {
                assert(FX_ONE as int * FX_ONE as int <= 0x1_0000_0000 * nett as int)
                    by (nonlinear_arith)
                    requires
                        nett as int >= 1,
                        FX_ONE as int == 0x1_0000,
                ;
                crate::fx::lemma_tdiv_bound_by(
                    FX_ONE as int * FX_ONE as int,
                    nett as int,
                    0x1_0000_0000,
                );
            }
            crate::fx::div_trunc(FX_ONE * FX_ONE, nett)
        };
        c.set_effective_mass(eff);
        c.set_tangent_mass(tmass);
        let slack: i128 = if c_orig.penetration + ALLOWED_PENETRATION_FX < 0 {
            c_orig.penetration + ALLOWED_PENETRATION_FX
        } else {
            0
        };
        proof {
            crate::fx::lemma_fx_mul_bound(
                -BIAS_FACTOR_FX as int,
                inv_dt as int,
                0x4000,
                0x1000_0000,
                0x400_0000,
            );
        }
        let scaled_bias = crate::fx::fx_mul(-BIAS_FACTOR_FX, inv_dt);
        proof {
            crate::fx::lemma_fx_mul_bound(
                scaled_bias as int,
                slack as int,
                0x400_0000,
                0x2_0000_0000,
                0x800_0000_0000,
            );
        }
        let bias = crate::fx::fx_mul(scaled_bias, slack);
        c.set_bias(bias);
        proof {
            assert(c == presolve_contact_spec(c_orig, ob_i, ob_r, inv_dt as int));
            assert(c.solver_bounded());
            lemma_warm_increment_bounds(c, ob_i, ob_r);
            assert(c.accumulated_impulse_x_spec() == c_orig.accumulated_impulse_x_spec());
            assert(c.accumulated_impulse_y_spec() == c_orig.accumulated_impulse_y_spec());
        }
        proof {
            assert(incident_body.inv_mass_spec() == ob_i.inv_mass_spec());
            assert(incident_body.inv_inertia_spec() == ob_i.inv_inertia_spec());
            assert(reference_body.inv_mass_spec() == ob_r.inv_mass_spec());
            assert(reference_body.inv_inertia_spec() == ob_r.inv_inertia_spec());
        }
        c.apply_accumulated_impulses(incident_body, reference_body);
        c
    }

    /// One pass of the sequential impulse solver over the manifold: per
    /// contact, push the accumulated normal impulse toward canceling the
    /// approach velocity (plus bias), clamp it at zero, and apply only the
    /// delta to both bodies. Run a fixed number of times per frame by the
    /// caller.
    pub fn solve(&mut self, incident_body: &mut Body, reference_body: &mut Body)
        requires
            old(incident_body).mass_ok(),
            old(reference_body).mass_ok(),
        ensures
            final(self).incident_body == old(self).incident_body,
            final(self).reference_body == old(self).reference_body,
            final(self).manifold@.len() == old(self).manifold@.len(),
            ({
                let f = solve_fold(
                    old(self).manifold@,
                    old(self).manifold@.len() as int,
                    *old(incident_body),
                    *old(reference_body),
                );
                &&& final(self).manifold@ == f.0
                &&& *final(incident_body) == f.1
                &&& *final(reference_body) == f.2
            }),
            *final(incident_body) == (Body {
                velocity: final(incident_body).velocity,
                angular_velocity: final(incident_body).angular_velocity,
                ..*old(incident_body)
            }),
            *final(reference_body) == (Body {
                velocity: final(reference_body).velocity,
                angular_velocity: final(reference_body).angular_velocity,
                ..*old(reference_body)
            }),
            (forall|k: int|
                0 <= k < old(self).manifold@.len()
                    ==> (#[trigger] old(self).manifold@[k]).accumulated_normal_impulse >= 0)
                ==> (forall|k: int|
                0 <= k < final(self).manifold@.len()
                    ==> (#[trigger] final(self).manifold@[k]).accumulated_normal_impulse >= 0),
    {
        let ghost ob_i = *incident_body;
        let ghost ob_r = *reference_body;
        let ghost om = self.manifold@;
        let mut k: usize = 0;
        while k < self.manifold.len()
            invariant
                ob_i.mass_ok(),
                ob_r.mass_ok(),
                ob_i == *old(incident_body),
                ob_r == *old(reference_body),
                om == old(self).manifold@,
                k <= om.len(),
                self.manifold@.len() == om.len(),
                self.incident_body == old(self).incident_body,
                self.reference_body == old(self).reference_body,
                self.manifold@ == solve_fold(om, k as int, ob_i, ob_r).0,
                *incident_body == solve_fold(om, k as int, ob_i, ob_r).1,
                *reference_body == solve_fold(om, k as int, ob_i, ob_r).2,
            decreases om.len() - k,
        {
            proof {
                lemma_solve_fold_frame(om, k as int, ob_i, ob_r);
                lemma_solve_fold_body_frame(om, k as int, ob_i, ob_r);
            }
            let c = self.manifold[k];
            let c2 = Self::solve_one(c, incident_body, reference_body);
            let slot = &mut self.manifold[k];
            *slot = c2;
            k += 1;
        }
        proof {
            lemma_solve_fold_frame(om, om.len() as int, ob_i, ob_r);
            lemma_solve_fold_body_frame(om, om.len() as int, ob_i, ob_r);
            if forall|kk: int|
                0 <= kk < om.len() ==> (#[trigger] om[kk]).accumulated_normal_impulse >= 0 {
                lemma_solve_fold_nonneg(om, om.len() as int, ob_i, ob_r);
            }
        }
    }

    /// One sequential-impulse step on one contact.
    #[verifier::rlimit(100)]
    fn solve_one(c: ContactPoint, incident_body: &mut Body, reference_body: &mut Body) -> (c2:
        ContactPoint)
        requires
            old(incident_body).mass_ok(),
            old(reference_body).mass_ok(),
        ensures
            (c2, *final(incident_body), *final(reference_body)) == solve_step_spec(
                c,
                *old(incident_body),
                *old(reference_body),
            ),
    {
        let vi = incident_body.velocity();
        let vr = reference_body.velocity();
        let wi = incident_body.angular_velocity();
        let wr = reference_body.angular_velocity();
        let ok = c.in_solver_range() && vi.x >= -0x40_0000_0000 && vi.x <= 0x40_0000_0000 && vi.y
            >= -0x40_0000_0000 && vi.y <= 0x40_0000_0000 && vr.x >= -0x40_0000_0000 && vr.x
            <= 0x40_0000_0000 && vr.y >= -0x40_0000_0000 && vr.y <= 0x40_0000_0000 && wi
            >= -0x4000_0000 && wi <= 0x4000_0000 && wr >= -0x4000_0000 && wr <= 0x4000_0000;
        proof {
            assert(ok == solve_ranges_ok(c, *old(incident_body), *old(reference_body)));
        }
        if !ok {
            return c;
        }
        let ti = c.to_incident;
        let tr = c.to_reference;
        let n = c.normal;
        proof {
            crate::fx::lemma_fx_mul_bound(
                -wi as int,
                ti.y as int,
                0x4000_0000,
                0x4_0000_0000,
                0x1_0000_0000_0000,
            );
            crate::fx::lemma_fx_mul_bound(
                wi as int,
                ti.x as int,
                0x4000_0000,
                0x4_0000_0000,
                0x1_0000_0000_0000,
            );
            crate::fx::lemma_fx_mul_bound(
                -wr as int,
                tr.y as int,
                0x4000_0000,
                0x4_0000_0000,
                0x1_0000_0000_0000,
            );
            crate::fx::lemma_fx_mul_bound(
                wr as int,
                tr.x as int,
                0x4000_0000,
                0x4_0000_0000,
                0x1_0000_0000_0000,
            );
        }
        let att_i = Vec2 { x: crate::fx::fx_mul(-wi, ti.y), y: crate::fx::fx_mul(wi, ti.x) };
        let att_r = Vec2 { x: crate::fx::fx_mul(-wr, tr.y), y: crate::fx::fx_mul(wr, tr.x) };
        let rel = vi.plus(att_i).minus(vr).minus(att_r);
        proof {
            assert(rel.bounded(0x4_0000_0000_0000));
            crate::vec2::lemma_dot_spec_bound_div(
                rel,
                n,
                0x4_0000_0000_0000,
                0x2_0000,
                0x10_0000_0000_0000,
            );
        }
        let vn = rel.dot(n);
        let arg = -vn + c.bias;
        proof {
            crate::fx::lemma_fx_mul_bound(
                c.effective_mass as int,
                arg as int,
                0x100_0000_0000,
                0x20_0000_0000_0000,
                0x2000_0000_0000_0000_0000,
            );
        }
        let imp = crate::fx::fx_mul(c.effective_mass, arg);
        let sum = c.accumulated_normal_impulse + imp;
        let to_apply: i128 = if sum > 0 {
            sum
        } else {
            0
        };
        proof {
            assert(to_apply as int == solve_new_acc_spec(
                c,
                *old(incident_body),
                *old(reference_body),
            ));
        }
        if to_apply > 0x10_0000_0000 {
            return c;
        }
        let delta = to_apply - c.accumulated_normal_impulse;
        proof {
            crate::fx::lemma_fx_mul_bound(
                n.x as int,
                delta as int,
                0x2_0000,
                0x20_0000_0000,
                0x40_0000_0000,
            );
            crate::fx::lemma_fx_mul_bound(
                n.y as int,
                delta as int,
                0x2_0000,
                0x20_0000_0000,
                0x40_0000_0000,
            );
        }
        let j = n.scaled(delta);
        proof {
            lemma_cross_of_solver_arm(ti, j);
            lemma_cross_of_solver_arm(tr, j);
        }
        let ci = ti.cross(j);
        let mut out = c;
        out.set_accumulated_normal_impulse(to_apply);
        incident_body.apply_impulse(j);
        proof {
            assert(incident_body.inv_inertia_spec() == old(incident_body).inv_inertia_spec());
        }
        incident_body.apply_angular_impulse(ci);
        let nj = j.neg();
        let cr = tr.cross(nj);
        reference_body.apply_impulse(nj);
        proof {
            assert(reference_body.inv_inertia_spec() == old(reference_body).inv_inertia_spec());
        }
        reference_body.apply_angular_impulse(cr);
        proof {
            assert((out, *incident_body, *reference_body) == solve_step_spec(
                c,
                *old(incident_body),
                *old(reference_body),
            ));
        }
        out
    }
}

/// The cross product of a solver-range moment arm with an impulse delta is
/// bounded and safe to compute.
proof fn lemma_cross_of_solver_arm(arm: Vec2, j: Vec2)
    requires
        arm.bounded(0x4_0000_0000),
        j.bounded(0x40_0000_0000),
    ensures
        abs(arm.x as int * j.y as int) <= 0x100_0000_0000_0000_0000,
        abs(arm.y as int * j.x as int) <= 0x100_0000_0000_0000_0000,
        abs(arm.cross_spec(j)) <= 0x200_0000_0000_0000,
        abs(arm.x as int * (-j.y as int)) <= 0x100_0000_0000_0000_0000,
        abs(arm.y as int * (-j.x as int)) <= 0x100_0000_0000_0000_0000,
        abs(
            tdiv(arm.x as int * (-j.y as int) - arm.y as int * (-j.x as int), FX_ONE as int),
        ) <= 0x200_0000_0000_0000,
{
    assert(abs(arm.x as int * j.y as int) <= 0x100_0000_0000_0000_0000 && abs(
        arm.y as int * j.x as int,
    ) <= 0x100_0000_0000_0000_0000 && abs(arm.x as int * (-j.y as int))
        <= 0x100_0000_0000_0000_0000 && abs(arm.y as int * (-j.x as int))
        <= 0x100_0000_0000_0000_0000) by (nonlinear_arith)
        requires
            abs(arm.x as int) <= 0x4_0000_0000,
            abs(arm.y as int) <= 0x4_0000_0000,
            abs(j.x as int) <= 0x40_0000_0000,
            abs(j.y as int) <= 0x40_0000_0000,
    ;
    crate::fx::lemma_tdiv_bound_by(
        arm.x as int * j.y as int - arm.y as int * j.x as int,
        FX_ONE as int,
        0x200_0000_0000_0000,
    );
    crate::fx::lemma_tdiv_bound_by(
        arm.x as int * (-j.y as int) - arm.y as int * (-j.x as int),
        FX_ONE as int,
        0x200_0000_0000_0000,
    );
}

/// A solver pass only changes velocities and angular velocities.
proof fn lemma_solve_fold_body_frame(m: Seq<ContactPoint>, n: int, inc: Body, refb: Body)
    requires
        0 <= n,
    ensures
        solve_fold(m, n, inc, refb).1 == (Body {
            velocity: solve_fold(m, n, inc, refb).1.velocity,
            angular_velocity: solve_fold(m, n, inc, refb).1.angular_velocity,
            ..inc
        }),
        solve_fold(m, n, inc, refb).2 == (Body {
            velocity: solve_fold(m, n, inc, refb).2.velocity,
            angular_velocity: solve_fold(m, n, inc, refb).2.angular_velocity,
            ..refb
        }),
    decreases n,
{
    if n > 0 {
        lemma_solve_fold_body_frame(m, n - 1, inc, refb);
    }
}

/// Bounds on the velocity increments of re-applying one contact's
/// accumulated impulse: the impulse vector, the two angular cross terms, and
/// every per-body velocity change stay in range.
proof fn lemma_warm_increment_bounds(c: ContactPoint, inc: Body, refb: Body)
    requires
        c.solver_bounded(),
        inc.mass_ok(),
        refb.mass_ok(),
    ensures
        abs(c.accumulated_impulse_x_spec()) <= 0x40_0000_0000,
        abs(c.accumulated_impulse_y_spec()) <= 0x40_0000_0000,
        abs(tdiv(c.accumulated_impulse_x_spec() * inc.inv_mass_spec(), FX_ONE as int))
            <= 0x100_0000_0000_0000,
        abs(tdiv(c.accumulated_impulse_y_spec() * inc.inv_mass_spec(), FX_ONE as int))
            <= 0x100_0000_0000_0000,
        abs(
            tdiv((-c.accumulated_impulse_x_spec()) * refb.inv_mass_spec(), FX_ONE as int),
        ) <= 0x100_0000_0000_0000,
        abs(
            tdiv((-c.accumulated_impulse_y_spec()) * refb.inv_mass_spec(), FX_ONE as int),
        ) <= 0x100_0000_0000_0000,
        abs(
            tdiv(
                tdiv(
                    c.to_incident.x * c.accumulated_impulse_y_spec() - c.to_incident.y
                        * c.accumulated_impulse_x_spec(),
                    FX_ONE as int,
                ) * inc.inv_inertia_spec(),
                FX_ONE as int,
            ),
        ) <= 0x2_0000_0000_0000_0000,
        abs(
            tdiv(
                tdiv(
                    c.to_reference.x * (-c.accumulated_impulse_y_spec()) - c.to_reference.y * (
                    -c.accumulated_impulse_x_spec()),
                    FX_ONE as int,
                ) * refb.inv_inertia_spec(),
                FX_ONE as int,
            ),
        ) <= 0x2_0000_0000_0000_0000,
        0 <= inc.inv_mass_spec() <= 0x100_0000,
        0 <= refb.inv_mass_spec() <= 0x100_0000,
        0 <= inc.inv_inertia_spec() <= 0x100_0000,
        0 <= refb.inv_inertia_spec() <= 0x100_0000,
{
    let s = FX_ONE as int;
    if !inc.is_static {
        crate::fx::lemma_tdiv_nonneg(s * s, inc.mass as int);
        crate::fx::lemma_tdiv_bound_by(s * s, inc.mass as int, 0x100_0000);
        crate::fx::lemma_tdiv_nonneg(s * s, inc.inertia as int);
        crate::fx::lemma_tdiv_bound_by(s * s, inc.inertia as int, 0x100_0000);
    }
    if !refb.is_static {
        crate::fx::lemma_tdiv_nonneg(s * s, refb.mass as int);
        crate::fx::lemma_tdiv_bound_by(s * s, refb.mass as int, 0x100_0000);
        crate::fx::lemma_tdiv_nonneg(s * s, refb.inertia as int);
        crate::fx::lemma_tdiv_bound_by(s * s, refb.inertia as int, 0x100_0000);
    }
    crate::fx::lemma_fx_mul_bound(
        c.normal.x as int,
        c.accumulated_normal_impulse as int,
        0x2_0000,
        0x10_0000_0000,
        0x20_0000_0000,
    );
    crate::fx::lemma_fx_mul_bound(
        c.normal.y as int,
        c.accumulated_normal_impulse as int,
        0x2_0000,
        0x10_0000_0000,
        0x20_0000_0000,
    );
    crate::fx::lemma_fx_mul_bound(
        -c.normal.y as int,
        c.accumulated_tangent_impulse as int,
        0x2_0000,
        0x10_0000_0000,
        0x20_0000_0000,
    );
    crate::fx::lemma_fx_mul_bound(
        c.normal.x as int,
        c.accumulated_tangent_impulse as int,
        0x2_0000,
        0x10_0000_0000,
        0x20_0000_0000,
    );
    let ix = c.accumulated_impulse_x_spec();
    let iy = c.accumulated_impulse_y_spec();
    crate::fx::lemma_fx_mul_bound(ix, inc.inv_mass_spec(), 0x40_0000_0000, 0x100_0000, 0x4000_0000_0000);
    crate::fx::lemma_fx_mul_bound(iy, inc.inv_mass_spec(), 0x40_0000_0000, 0x100_0000, 0x4000_0000_0000);
    crate::fx::lemma_fx_mul_bound(-ix, refb.inv_mass_spec(), 0x40_0000_0000, 0x100_0000, 0x4000_0000_0000);
    crate::fx::lemma_fx_mul_bound(-iy, refb.inv_mass_spec(), 0x40_0000_0000, 0x100_0000, 0x4000_0000_0000);
    assert(abs(c.to_incident.x * iy) <= 0x100_0000_0000_0000_0000 && abs(c.to_incident.y * ix)
        <= 0x100_0000_0000_0000_0000) by (nonlinear_arith)
        requires
            abs(c.to_incident.x as int) <= 0x4_0000_0000,
            abs(c.to_incident.y as int) <= 0x4_0000_0000,
            abs(ix) <= 0x40_0000_0000,
            abs(iy) <= 0x40_0000_0000,
    ;
    assert(abs(c.to_reference.x * (-iy)) <= 0x100_0000_0000_0000_0000 && abs(
        c.to_reference.y * (-ix),
    ) <= 0x100_0000_0000_0000_0000) by (nonlinear_arith)
        requires
            abs(c.to_reference.x as int) <= 0x4_0000_0000,
            abs(c.to_reference.y as int) <= 0x4_0000_0000,
            abs(ix) <= 0x40_0000_0000,
            abs(iy) <= 0x40_0000_0000,
    ;
    crate::fx::lemma_tdiv_bound_by(
        c.to_incident.x * iy - c.to_incident.y * ix,
        s,
        0x200_0000_0000_0000,
    );
    crate::fx::lemma_tdiv_bound_by(
        c.to_reference.x * (-iy) - c.to_reference.y * (-ix),
        s,
        0x200_0000_0000_0000,
    );
    crate::fx::lemma_fx_mul_bound(
        tdiv(c.to_incident.x * iy - c.to_incident.y * ix, s),
        inc.inv_inertia_spec(),
        0x200_0000_0000_0000,
        0x100_0000,
        0x2_0000_0000_0000_0000,
    );
    crate::fx::lemma_fx_mul_bound(
        tdiv(c.to_reference.x * (-iy) - c.to_reference.y * (-ix), s),
        refb.inv_inertia_spec(),
        0x200_0000_0000_0000,
        0x100_0000,
        0x2_0000_0000_0000_0000,
    );
}

/// Every accumulated normal impulse in a manifold is nonnegative.
pub open spec fn manifold_nonneg(m: Seq<ContactPoint>) -> bool {
    forall|k: int| 0 <= k < m.len() ==> (#[trigger] m[k]).accumulated_normal_impulse >= 0
}

/// Freshly clipped contacts start with zero accumulators.
pub proof fn lemma_manifold_spec_fresh(inc: Seq<Vec2>, refp: Seq<Vec2>, nx: int, ny: int)
    ensures
        manifold_nonneg(manifold_spec(inc, refp, nx, ny)),
{
    let m = manifold_spec(inc, refp, nx, ny);
    assert forall|k: int| 0 <= k < m.len() implies (#[trigger] m[k]).accumulated_normal_impulse
        >= 0 by {
        assert(m[k].accumulated_normal_impulse == 0);
    }
}

/// A search for a matching identity lands inside the manifold or at its
/// length.
proof fn lemma_find_id_spec_range(m: Seq<ContactPoint>, id: ContactID, i: int)
    requires
        0 <= i,
    ensures
        0 <= find_id_spec(m, id, i) <= m.len(),
    decreases m.len() - i,
{
    if 0 <= i < m.len() && !(m[i].id == id) {
        lemma_find_id_spec_range(m, id, i + 1);
    }
}

/// Warm-starting a nonnegative manifold from a nonnegative old manifold
/// keeps every accumulated normal impulse nonnegative.
pub proof fn lemma_update_manifold_nonneg(old_m: Seq<ContactPoint>, new_m: Seq<ContactPoint>)
    requires
        manifold_nonneg(old_m),
        manifold_nonneg(new_m),
    ensures
        manifold_nonneg(update_manifold_spec(old_m, new_m)),
{
    let u = update_manifold_spec(old_m, new_m);
    assert forall|k: int| 0 <= k < u.len() implies (#[trigger] u[k]).accumulated_normal_impulse
        >= 0 by {
        lemma_find_id_spec_range(old_m, new_m[k].id, 0);
    }
}

/// The manifold a pair warm-starts from is nonnegative whenever every
/// manifold in the previous map is.
pub proof fn lemma_map_prev_manifold_nonneg(
    m: Seq<((usize, usize), CollisionConstraint)>,
    key: (usize, usize),
    inc: usize,
    refh: usize,
    idx: int,
)
    requires
        forall|k: int| 0 <= k < m.len() ==> manifold_nonneg((#[trigger] m[k]).1.manifold@),
    ensures
        manifold_nonneg(map_prev_manifold(m, key, inc, refh, idx)),
    decreases m.len() - idx,
{
    if idx < 0 || idx >= m.len() {
    } else if m[idx].0 == key && m[idx].1.incident_body == inc && m[idx].1.reference_body
        == refh {
    } else {
        lemma_map_prev_manifold_nonneg(m, key, inc, refh, idx + 1);
    }
}

/// A pre-solve pass copies every accumulated impulse unchanged.
pub proof fn lemma_presolve_keeps_accumulators(
    m: Seq<ContactPoint>,
    inc: Body,
    refb: Body,
    inv_dt: int,
)
    ensures
        presolve_spec(m, inc, refb, inv_dt).0.len() == m.len(),
        forall|k: int|
            0 <= k < m.len() ==> (#[trigger] presolve_spec(
                m,
                inc,
                refb,
                inv_dt,
            ).0[k]).accumulated_normal_impulse == m[k].accumulated_normal_impulse,
{
    assert forall|k: int| 0 <= k < m.len() implies (#[trigger] presolve_spec(
        m,
        inc,
        refb,
        inv_dt,
    ).0[k]).accumulated_normal_impulse == m[k].accumulated_normal_impulse by {
        assert(presolve_spec(m, inc, refb, inv_dt).0[k] == presolve_contact_spec(
            m[k],
            inc,
            refb,
            inv_dt,
        ));
    }
}

} // verus!
