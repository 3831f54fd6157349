//! The frame-stepped engine: an arena of bodies, a persistent pair-to-
//! constraint map, and the per-frame detect / resolve / integrate sequence.
//!
//! Every unordered body pair is tested exhaustively; a pair that overlaps
//! gets its constraint created or updated (warm-started), a pair that
//! stopped overlapping loses its constraint. The map key is the canonical
//! pair `(smaller index, larger index)` and pairs are visited in a fixed
//! order, so solving is deterministic.

use vstd::prelude::*;
use vstd::math::abs;
use crate::body::Body;
use crate::constraint::{
    lemma_manifold_spec_fresh, lemma_map_prev_manifold_nonneg, lemma_presolve_keeps_accumulators,
    lemma_solve_fold_frame, lemma_solve_fold_nonneg, lemma_update_manifold_nonneg, manifold_nonneg, manifold_spec,
    map_prev_manifold, presolve_spec, solve_fold, update_manifold_spec, CollisionConstraint,
};
use crate::contact::ContactPoint;
use crate::fx::{div_trunc, tdiv, FX_ONE};
use crate::polygon::{check_collision_spec, lemma_query_index_range, plane_at, query_index_spec, wf_points_seq};
use crate::vec2::Vec2;

verus! {

/// The separating-axis result of one body pair, as a mathematical value:
/// `None` when either body has no collider or a degenerate world ring.
/// Kept opaque so per-pair terms stay atomic in the detection loops; reveal
/// it to reason about one pair.
#[verifier::opaque]
pub open spec fn pair_sat_spec(bodies: Seq<Body>, i: int, j: int) -> Option<(bool, (int, int), int,
)> {
    let a = bodies[i];
    let b = bodies[j];
    if a.collider is Some && b.collider is Some && wf_points_seq(a.world_collider_points_spec())
        && wf_points_seq(b.world_collider_points_spec()) {
        check_collision_spec(a.world_collider_points_spec(), b.world_collider_points_spec())
    } else {
        None
    }
}

/// Both bodies of a pair are within the range the solver accepts; a pair
/// whose bodies have been pushed outside it is left alone rather than pushed
/// further out.
pub open spec fn resolve_ranges_ok(inc: Body, refb: Body) -> bool {
    &&& inc.velocity.bounded(0x40_0000_0000_0000_0000)
    &&& refb.velocity.bounded(0x40_0000_0000_0000_0000)
    &&& abs(inc.angular_velocity as int) <= 0x40_0000_0000_0000_0000
    &&& abs(refb.angular_velocity as int) <= 0x40_0000_0000_0000_0000
}

/// `iters` sequential-impulse passes over one manifold and its two bodies,
/// each pass a [`solve_fold`] seeded with the previous pass's state.
pub open spec fn solve_iters_spec(m: Seq<ContactPoint>, inc: Body, refb: Body, iters: int) -> (
    Seq<ContactPoint>,
    Body,
    Body,
)
    decreases iters,
{
    if iters <= 0 {
        (m, inc, refb)
    } else {
        let p = solve_iters_spec(m, inc, refb, iters - 1);
        solve_fold(p.0, p.0.len() as int, p.1, p.2)
    }
}

/// What resolving one map entry does: one pre-solve pass then `iters` solver
/// passes, or nothing when the pair's bodies are out of range.
pub open spec fn solve_entry_spec(
    m: Seq<ContactPoint>,
    inc: Body,
    refb: Body,
    inv_dt: int,
    iters: int,
) -> (Seq<ContactPoint>, Body, Body) {
    if !resolve_ranges_ok(inc, refb) {
        (m, inc, refb)
    } else {
        let p = presolve_spec(m, inc, refb, inv_dt);
        solve_iters_spec(p.0, p.1, p.2, iters)
    }
}

/// Resolving the first `k` map entries in order, each entry seeing the body
/// states the previous entries left behind: the per-entry result manifolds,
/// and the body arena.
pub open spec fn resolve_fold(
    map: Seq<((usize, usize), CollisionConstraint)>,
    k: int,
    bodies: Seq<Body>,
    inv_dt: int,
    iters: int,
) -> (Seq<Seq<ContactPoint>>, Seq<Body>)
    decreases k,
{
    if k <= 0 {
        (Seq::empty(), bodies)
    } else {
        let p = resolve_fold(map, k - 1, bodies, inv_dt, iters);
        let e = map[k - 1];
        let st = solve_entry_spec(
            e.1.manifold@,
            p.1[e.1.incident_body as int],
            p.1[e.1.reference_body as int],
            inv_dt,
            iters,
        );
        (
            p.0.push(st.0),
            p.1.update(e.1.incident_body as int, st.1).update(e.1.reference_body as int, st.2),
        )
    }
}

/// Resolving entries yields one result manifold per entry and keeps the
/// arena's length.
pub proof fn lemma_resolve_fold_len(
    map: Seq<((usize, usize), CollisionConstraint)>,
    k: int,
    bodies: Seq<Body>,
    inv_dt: int,
    iters: int,
)
    requires
        0 <= k <= map.len(),
        forall|kk: int|
            0 <= kk < k ==> (#[trigger] map[kk]).1.incident_body < bodies.len()
                && map[kk].1.reference_body < bodies.len(),
    ensures
        resolve_fold(map, k, bodies, inv_dt, iters).0.len() == k,
        resolve_fold(map, k, bodies, inv_dt, iters).1.len() == bodies.len(),
    decreases k,
{
    if k > 0 {
        lemma_resolve_fold_len(map, k - 1, bodies, inv_dt, iters);
    }
}

/// Keys of the colliding pairs whose first index is `a` and whose second
/// index lies below `j`, in increasing order of the second index.
pub open spec fn expected_row(bodies: Seq<Body>, a: int, j: int) -> Seq<(usize, usize)>
    decreases j - a,
{
    if j <= a + 1 {
        Seq::empty()
    } else {
        let p = expected_row(bodies, a, j - 1);
        if pair_sat_spec(bodies, a, j - 1) is Some {
            p.push((a as usize, (j - 1) as usize))
        } else {
            p
        }
    }
}

/// Keys of all colliding pairs whose first index lies below `i`, in
/// lexicographic order: exactly what one detection pass must install, in its
/// stable iteration order.
pub open spec fn expected_keys(bodies: Seq<Body>, i: int) -> Seq<(usize, usize)>
    decreases i,
{
    if i <= 0 {
        Seq::empty()
    } else {
        expected_keys(bodies, i - 1) + expected_row(bodies, i - 1, bodies.len() as int)
    }
}

/// A colliding pair's key occurs in its row.
proof fn lemma_expected_row_contains(bodies: Seq<Body>, a: int, j: int, b: int)
    requires
        a < b < j,
        pair_sat_spec(bodies, a, b) is Some,
    ensures
        exists|k: int|
            0 <= k < expected_row(bodies, a, j).len() && (#[trigger] expected_row(bodies, a, j)[k])
                == (a as usize, b as usize),
    decreases j - a,
{
    if b == j - 1 {
        assert(expected_row(bodies, a, j)[expected_row(bodies, a, j).len() - 1] == (
            a as usize,
            b as usize,
        ));
    } else {
        lemma_expected_row_contains(bodies, a, j - 1, b);
        let k = choose|k: int|
            0 <= k < expected_row(bodies, a, j - 1).len() && (#[trigger] expected_row(
                bodies,
                a,
                j - 1,
            )[k]) == (a as usize, b as usize);
        assert(expected_row(bodies, a, j)[k] == (a as usize, b as usize));
    }
}

/// A colliding pair's key occurs among the expected keys once its row is
/// covered.
proof fn lemma_expected_keys_contains(bodies: Seq<Body>, i: int, a: int, b: int)
    requires
        0 <= a < i,
        a < b < bodies.len(),
        pair_sat_spec(bodies, a, b) is Some,
    ensures
        exists|k: int|
            0 <= k < expected_keys(bodies, i).len() && (#[trigger] expected_keys(bodies, i)[k])
                == (a as usize, b as usize),
    decreases i,
{
    if i - 1 == a {
        lemma_expected_row_contains(bodies, a, bodies.len() as int, b);
        let k = choose|k: int|
            0 <= k < expected_row(bodies, a, bodies.len() as int).len() && (
            #[trigger] expected_row(bodies, a, bodies.len() as int)[k]) == (a as usize, b as usize);
        assert(expected_keys(bodies, i)[expected_keys(bodies, i - 1).len() + k] == (
            a as usize,
            b as usize,
        ));
    } else {
        lemma_expected_keys_contains(bodies, i - 1, a, b);
        let k = choose|k: int|
            0 <= k < expected_keys(bodies, i - 1).len() && (#[trigger] expected_keys(
                bodies,
                i - 1,
            )[k]) == (a as usize, b as usize);
        assert(expected_keys(bodies, i)[k] == (a as usize, b as usize));
    }
}

/// One detection entry is exactly right for this frame: its key is a
/// colliding pair in canonical order, the roles follow the shallower axis,
/// and its manifold is the fresh clip of this frame's world rings,
/// warm-started from the previous map's matching entry. Kept opaque so the
/// detection loops can carry it atomically; reveal it to read one entry.
#[verifier::opaque]
pub open spec fn entry_ok(
    bodies: Seq<Body>,
    prev_map: Seq<((usize, usize), CollisionConstraint)>,
    e: ((usize, usize), CollisionConstraint),
) -> bool {
    let a = e.0.0 as int;
    let b = e.0.1 as int;
    let sat = pair_sat_spec(bodies, a, b);
    &&& a < b < bodies.len()
    &&& ((e.1.incident_body == e.0.0 && e.1.reference_body == e.0.1) || (e.1.incident_body
        == e.0.1 && e.1.reference_body == e.0.0))
    &&& e.1.manifold@.len() <= 2
    &&& sat is Some
    &&& (sat->Some_0.0 ==> e.1.incident_body == e.0.1 && e.1.reference_body == e.0.0)
    &&& (!sat->Some_0.0 ==> e.1.incident_body == e.0.0 && e.1.reference_body == e.0.1)
    &&& e.1.manifold@ == update_manifold_spec(
        map_prev_manifold(prev_map, e.0, e.1.incident_body, e.1.reference_body, 0),
        manifold_spec(
            bodies[e.1.incident_body as int].world_collider_points_spec(),
            bodies[e.1.reference_body as int].world_collider_points_spec(),
            sat->Some_0.1.0,
            sat->Some_0.1.1,
        ),
    )
}

/// The collision engine: bodies addressed by stable indices, and one
/// constraint per overlapping pair.
pub struct Engine {
    pub bodies: Vec<Body>,
    pub collision_map: Vec<((usize, usize), CollisionConstraint)>,
    pub iteration_count: usize,
}

impl Engine {
    /// All bodies are in range.
    pub open spec fn bodies_wf(self) -> bool {
        forall|i: int| 0 <= i < self.bodies@.len() ==> (#[trigger] self.bodies@[i]).wf()
    }

    /// Every map entry names a canonical pair of distinct valid body
    /// indices, with the constraint's roles assigned to that pair, and a
    /// manifold of at most two contacts.
    pub open spec fn map_wf(self) -> bool {
        forall|k: int|
            0 <= k < self.collision_map@.len() ==> {
                let e = #[trigger] self.collision_map@[k];
                &&& e.0.0 < e.0.1 < self.bodies@.len()
                &&& ((e.1.incident_body == e.0.0 && e.1.reference_body == e.0.1) || (
                e.1.incident_body == e.0.1 && e.1.reference_body == e.0.0))
                &&& e.1.manifold@.len() <= 2
            }
    }

    /// An engine over the given bodies with an empty constraint map.
    pub fn new(bodies: Vec<Body>, iteration_count: usize) -> (r: Engine)
        ensures
            r.bodies == bodies,
            r.collision_map@.len() == 0,
            r.iteration_count == iteration_count,
    {
        Engine { bodies, collision_map: Vec::new(), iteration_count }
    }

    /// Test every unordered pair: a colliding pair gets a constraint with
    /// the shallower side as reference and a freshly clipped manifold,
    /// warm-started from the pair's previous constraint when the roles
    /// match; pairs no longer colliding keep no constraint.
    #[verifier::rlimit(100)]
    pub fn check_collisions(&mut self)
        requires
            old(self).bodies_wf(),
        ensures
            final(self).bodies == old(self).bodies,
            final(self).iteration_count == old(self).iteration_count,
            final(self).bodies_wf(),
            final(self).map_wf(),
            forall|k: int|
                0 <= k < final(self).collision_map@.len() ==> entry_ok(
                    old(self).bodies@,
                    old(self).collision_map@,
                    #[trigger] final(self).collision_map@[k],
                ),
            final(self).collision_map@.len() == expected_keys(
                old(self).bodies@,
                old(self).bodies@.len() as int,
            ).len(),
            forall|k: int|
                0 <= k < final(self).collision_map@.len() ==> (#[trigger] final(self).collision_map@[k]).0 == expected_keys(
                    old(self).bodies@,
                    old(self).bodies@.len() as int,
                )[k],
            forall|i: int, j: int|
                0 <= i < j < old(self).bodies@.len() && (#[trigger] pair_sat_spec(
                    old(self).bodies@,
                    i,
                    j,
                )) is Some ==> exists|k: int|
                    0 <= k < final(self).collision_map@.len() && (#[trigger] final(self).collision_map@[k]).0 == (
                    i as usize,
                    j as usize,
                ),
    {
        let ghost ob = self.bodies@;
        let ghost omap = self.collision_map@;
        let n = self.bodies.len();
        let mut new_map: Vec<((usize, usize), CollisionConstraint)> = Vec::new();
        let mut i: usize = 0;
        while i < n
            invariant
                self.bodies@ == ob,
                self.collision_map@ == omap,
                self.iteration_count == old(self).iteration_count,
                old(self).bodies_wf(),
                ob == old(self).bodies@,
                omap == old(self).collision_map@,
                n == ob.len(),
                i <= n,
                new_map@.len() == expected_keys(ob, i as int).len(),
                forall|k: int|
                    0 <= k < new_map@.len() ==> (#[trigger] new_map@[k]).0 == expected_keys(
                        ob,
                        i as int,
                    )[k],
                forall|k: int|
                    0 <= k < new_map@.len() ==> entry_ok(ob, omap, #[trigger] new_map@[k]),
            decreases n - i,
        {
            let mut j: usize = i + 1;
            proof {
                assert(expected_keys(ob, i as int) + expected_row(ob, i as int, j as int)
                    =~= expected_keys(ob, i as int));
            }
            while j < n
                invariant
                    self.bodies@ == ob,
                    self.collision_map@ == omap,
                    self.iteration_count == old(self).iteration_count,
                    old(self).bodies_wf(),
                    ob == old(self).bodies@,
                    omap == old(self).collision_map@,
                    n == ob.len(),
                    i < n,
                    i < j <= n,
                    new_map@.len() == expected_keys(ob, i as int).len() + expected_row(
                        ob,
                        i as int,
                        j as int,
                    ).len(),
                    forall|k: int|
                        0 <= k < new_map@.len() ==> (#[trigger] new_map@[k]).0 == (expected_keys(
                            ob,
                            i as int,
                        ) + expected_row(ob, i as int, j as int))[k],
                    forall|k: int|
                        0 <= k < new_map@.len() ==> entry_ok(ob, omap, #[trigger] new_map@[k]),
                decreases n - j,
            {
                let ghost pre = new_map@;
                Self::process_pair(&self.bodies, &self.collision_map, &mut new_map, i, j);
                proof {
                    let prefix = expected_keys(ob, i as int) + expected_row(
                        ob,
                        i as int,
                        j as int,
                    );
                    let grown = expected_keys(ob, i as int) + expected_row(
                        ob,
                        i as int,
                        j as int + 1,
                    );
                    if pair_sat_spec(ob, i as int, j as int) is Some {
                        assert(grown =~= prefix.push((i, j)));
                    } else {
                        assert(grown =~= prefix);
                    }
                    assert forall|k: int| 0 <= k < new_map@.len() implies (
                    #[trigger] new_map@[k]).0 == grown[k] by {
                        if k < pre.len() {
                            assert(new_map@[k] == pre[k]);
                        }
                    }
                }
                j += 1;
            }
            i += 1;
        }
        self.collision_map = new_map;
        proof {
            assert forall|k: int|
                0 <= k < self.collision_map@.len() implies {
                let e = #[trigger] self.collision_map@[k];
                &&& e.0.0 < e.0.1 < self.bodies@.len()
                &&& ((e.1.incident_body == e.0.0 && e.1.reference_body == e.0.1) || (
                e.1.incident_body == e.0.1 && e.1.reference_body == e.0.0))
                &&& e.1.manifold@.len() <= 2
            } by {
                reveal(entry_ok);
                assert(entry_ok(ob, omap, self.collision_map@[k]));
            }
            assert forall|a: int, b: int|
                0 <= a < b < ob.len() && (#[trigger] pair_sat_spec(ob, a, b)) is Some implies exists|k: int|
                    0 <= k < self.collision_map@.len() && (#[trigger] self.collision_map@[k]).0
                        == (a as usize, b as usize) by {
                lemma_expected_keys_contains(ob, ob.len() as int, a, b);
                let k = choose|k: int|
                    0 <= k < expected_keys(ob, ob.len() as int).len() && (#[trigger] expected_keys(
                        ob,
                        ob.len() as int,
                    )[k]) == (a as usize, b as usize);
                assert(self.collision_map@[k].0 == (a as usize, b as usize));
            }
        }
    }

    /// Test one pair and, when it collides, append its constraint to the
    /// frame's new map: roles by the shallower axis, manifold freshly
    /// clipped and warm-started from the previous map's matching entry.
    #[verifier::rlimit(100)]
    fn process_pair(
        bodies: &Vec<Body>,
        prev_map: &Vec<((usize, usize), CollisionConstraint)>,
        new_map: &mut Vec<((usize, usize), CollisionConstraint)>,
        i: usize,
        j: usize,
    )
        requires
            i < j < bodies@.len(),
            forall|b: int| 0 <= b < bodies@.len() ==> (#[trigger] bodies@[b]).wf(),
        ensures
            pair_sat_spec(bodies@, i as int, j as int) is None ==> final(new_map)@ == old(
                new_map,
            )@,
            pair_sat_spec(bodies@, i as int, j as int) is Some ==> {
                let e = final(new_map)@.last();
                &&& final(new_map)@.len() == old(new_map)@.len() + 1
                &&& final(new_map)@ == old(new_map)@.push(e)
                &&& e.0 == (i, j)
                &&& entry_ok(bodies@, prev_map@, e)
            },
    {
        proof {
            reveal(entry_ok);
            reveal(pair_sat_spec);
        }
        let sat_output = bodies[i].check_collision(&bodies[j]);
        if let Some((is_reference, normal, _penetration)) = sat_output {
            proof {
                let wa = bodies@[i as int].world_collider_points_spec();
                let wb = bodies@[j as int].world_collider_points_spec();
                lemma_query_index_range(wa, wb, wa.len() as int);
                lemma_query_index_range(wb, wa, wb.len() as int);
                let pa = plane_at(wa, query_index_spec(wa, wb, wa.len() as int));
                let pb = plane_at(wb, query_index_spec(wb, wa, wb.len() as int));
                assert(pa.nondegenerate());
                assert(pb.nondegenerate());
                pa.lemma_unit_normal_bound();
                pb.lemma_unit_normal_bound();
                assert(normal.bounded(0x2_0000));
            }
            let (incident_index, reference_index) = if is_reference {
                (j, i)
            } else {
                (i, j)
            };
            let new_manifold = CollisionConstraint::generate_manifold(
                normal,
                &bodies[incident_index],
                &bodies[reference_index],
            );
            let prev = Self::find_prev_manifold(prev_map, i, j, incident_index, reference_index);
            let mut constraint = CollisionConstraint::new(prev, incident_index, reference_index);
            constraint.update_manifold(new_manifold);
            new_map.push(((i, j), constraint));
        }
    }

    /// The previous frame's manifold for a pair, when its constraint had the
    /// same role assignment; empty otherwise (a role swap restarts the
    /// accumulators, whose identities would not match anyway).
    fn find_prev_manifold(
        map: &Vec<((usize, usize), CollisionConstraint)>,
        i: usize,
        j: usize,
        incident_index: usize,
        reference_index: usize,
    ) -> (r: Vec<ContactPoint>)
        ensures
            r@ == map_prev_manifold(map@, (i, j), incident_index, reference_index, 0),
    {
        let mut k: usize = 0;
        while k < map.len()
            invariant
                k <= map@.len(),
                map_prev_manifold(map@, (i, j), incident_index, reference_index, 0)
                    == map_prev_manifold(map@, (i, j), incident_index, reference_index, k as int),
            decreases map@.len() - k,
        {
            let key_match = map[k].0.0 == i && map[k].0.1 == j && map[k].1.incident_body
                == incident_index && map[k].1.reference_body == reference_index;
            if key_match {
                let mut out: Vec<ContactPoint> = Vec::new();
                let mut c: usize = 0;
                while c < map[k].1.manifold.len()
                    invariant
                        k < map@.len(),
                        c <= map@[k as int].1.manifold@.len(),
                        out@ == map@[k as int].1.manifold@.take(c as int),
                    decreases map@[k as int].1.manifold@.len() - c,
                {
                    let item = map[k].1.manifold[c];
                    out.push(item);
                    proof {
                        assert(out@ =~= map@[k as int].1.manifold@.take(c as int + 1));
                    }
                    c += 1;
                }
                proof {
                    assert(out@ =~= map@[k as int].1.manifold@);
                }
                return out;
            }
            k += 1;
        }
        Vec::new()
    }

    /// Run pre-solve once and then the fixed number of solver iterations
    /// over every constraint, in map order. Bodies whose state has left the
    /// solver's range are skipped for a pair rather than pushed further out.
    pub fn resolve_collisions(&mut self, dt: i128)
        requires
            16 <= dt <= FX_ONE,
            old(self).map_wf(),
            forall|b: int|
                0 <= b < old(self).bodies@.len() ==> (#[trigger] old(self).bodies@[b]).pose_wf()
                    && old(self).bodies@[b].mass_ok(),
        ensures
            final(self).bodies@.len() == old(self).bodies@.len(),
            final(self).iteration_count == old(self).iteration_count,
            forall|b: int|
                0 <= b < old(self).bodies@.len() ==> (#[trigger] final(self).bodies@[b]) == (Body {
                    velocity: final(self).bodies@[b].velocity,
                    angular_velocity: final(self).bodies@[b].angular_velocity,
                    ..old(self).bodies@[b]
                }),
            final(self).map_wf(),
            final(self).collision_map@.len() == old(self).collision_map@.len(),
            forall|k: int|
                0 <= k < old(self).collision_map@.len() ==> (#[trigger] final(self).collision_map@[k]).0 == old(self).collision_map@[k].0 && final(self).collision_map@[k].1.incident_body == old(self).collision_map@[k].1.incident_body && final(self).collision_map@[k].1.reference_body == old(self).collision_map@[k].1.reference_body,
            ({
                let r = resolve_fold(
                    old(self).collision_map@,
                    old(self).collision_map@.len() as int,
                    old(self).bodies@,
                    tdiv(FX_ONE as int * FX_ONE as int, dt as int),
                    old(self).iteration_count as int,
                );
                &&& final(self).bodies@ == r.1
                &&& forall|k: int|
                    0 <= k < old(self).collision_map@.len() ==> (#[trigger] final(self).collision_map@[k]).1.manifold@ == r.0[k]
            }),
    {
        proof {
            vstd::arithmetic::div_mod::lemma_div_by_self(dt as int);
            vstd::arithmetic::div_mod::lemma_div_is_ordered(
                dt as int,
                FX_ONE as int * FX_ONE as int,
                dt as int,
            );
            crate::fx::lemma_tdiv_bound_by(FX_ONE as int * FX_ONE as int, dt as int, 0x1000_0000);
            crate::fx::lemma_tdiv_nonneg(FX_ONE as int * FX_ONE as int, dt as int);
        }
        let inv_dt = div_trunc(FX_ONE * FX_ONE, dt);
        let ghost omap = self.collision_map@;
        let ghost obodies = self.bodies@;
        let ghost iters = self.iteration_count as int;
        let mut k: usize = 0;
        while k < self.collision_map.len()
            invariant
                0 < inv_dt <= 0x1000_0000,
                inv_dt as int == tdiv(FX_ONE as int * FX_ONE as int, dt as int),
                omap == old(self).collision_map@,
                obodies == old(self).bodies@,
                iters == old(self).iteration_count as int,
                old(self).map_wf(),
                self.bodies@ == resolve_fold(omap, k as int, obodies, inv_dt as int, iters).1,
                forall|kk: int|
                    0 <= kk < k ==> (#[trigger] self.collision_map@[kk]).1.manifold@
                        == resolve_fold(omap, k as int, obodies, inv_dt as int, iters).0[kk],
                forall|kk: int|
                    k <= kk < omap.len() ==> (#[trigger] self.collision_map@[kk]) == omap[kk],
                self.bodies@.len() == old(self).bodies@.len(),
                self.iteration_count == old(self).iteration_count,
                self.collision_map@.len() == old(self).collision_map@.len(),
                k <= self.collision_map@.len(),
                forall|b: int|
                    0 <= b < old(self).bodies@.len() ==> (#[trigger] self.bodies@[b]) == (Body {
                        velocity: self.bodies@[b].velocity,
                        angular_velocity: self.bodies@[b].angular_velocity,
                        ..old(self).bodies@[b]
                    }),
                forall|b: int|
                    0 <= b < old(self).bodies@.len() ==> (#[trigger] self.bodies@[b]).pose_wf()
                        && self.bodies@[b].mass_ok(),
                self.map_wf(),
                forall|kk: int|
                    0 <= kk < old(self).collision_map@.len() ==> (#[trigger] self.collision_map@[kk]).0
                        == old(self).collision_map@[kk].0 && self.collision_map@[kk].1.incident_body
                        == old(self).collision_map@[kk].1.incident_body
                        && self.collision_map@[kk].1.reference_body == old(self).collision_map@[kk].1.reference_body,
            decreases self.collision_map@.len() - k,
        {
            proof {
                lemma_resolve_fold_len(omap, k as int, obodies, inv_dt as int, iters);
                lemma_resolve_fold_len(omap, k as int + 1, obodies, inv_dt as int, iters);
            }
            self.solve_entry(k, inv_dt);
            proof {
                assert(self.bodies@ == resolve_fold(
                    omap,
                    k as int + 1,
                    obodies,
                    inv_dt as int,
                    iters,
                ).1);
                assert(self.collision_map@[k as int].1.manifold@ == resolve_fold(
                    omap,
                    k as int + 1,
                    obodies,
                    inv_dt as int,
                    iters,
                ).0[k as int]);
            }
            k += 1;
        }
    }

    /// Pre-solve and iterate one constraint against its two bodies.
    fn solve_entry(&mut self, k: usize, inv_dt: i128)
        requires
            0 < inv_dt <= 0x1000_0000,
            k < old(self).collision_map@.len(),
            old(self).map_wf(),
            forall|b: int|
                0 <= b < old(self).bodies@.len() ==> (#[trigger] old(self).bodies@[b]).pose_wf()
                    && old(self).bodies@[b].mass_ok(),
        ensures
            final(self).bodies@.len() == old(self).bodies@.len(),
            final(self).iteration_count == old(self).iteration_count,
            final(self).collision_map@.len() == old(self).collision_map@.len(),
            forall|b: int|
                0 <= b < old(self).bodies@.len() ==> (#[trigger] final(self).bodies@[b]) == (Body {
                    velocity: final(self).bodies@[b].velocity,
                    angular_velocity: final(self).bodies@[b].angular_velocity,
                    ..old(self).bodies@[b]
                }),
            forall|b: int|
                0 <= b < old(self).bodies@.len() ==> (#[trigger] final(self).bodies@[b]).pose_wf()
                    && final(self).bodies@[b].mass_ok(),
            final(self).map_wf(),
            forall|kk: int|
                0 <= kk < old(self).collision_map@.len() ==> (#[trigger] final(self).collision_map@[kk]).0 == old(self).collision_map@[kk].0 && final(self).collision_map@[kk].1.incident_body == old(self).collision_map@[kk].1.incident_body && final(self).collision_map@[kk].1.reference_body == old(self).collision_map@[kk].1.reference_body,
            forall|kk: int|
                0 <= kk < old(self).collision_map@.len() && kk != k ==> (#[trigger] final(self).collision_map@[kk]) == old(self).collision_map@[kk],
            ({
                let e = old(self).collision_map@[k as int];
                let st = solve_entry_spec(
                    e.1.manifold@,
                    old(self).bodies@[e.1.incident_body as int],
                    old(self).bodies@[e.1.reference_body as int],
                    inv_dt as int,
                    old(self).iteration_count as int,
                );
                &&& final(self).collision_map@[k as int].1.manifold@ == st.0
                &&& final(self).bodies@ == old(self).bodies@.update(
                    e.1.incident_body as int,
                    st.1,
                ).update(e.1.reference_body as int, st.2)
            }),
    {
        let inc_h = self.collision_map[k].1.incident_body;
        let ref_h = self.collision_map[k].1.reference_body;
        let ghost m0 = self.collision_map@[k as int].1.manifold@;
        let mut binc = placeholder_body();
        let mut bref = placeholder_body();
        core::mem::swap(&mut self.bodies[inc_h], &mut binc);
        core::mem::swap(&mut self.bodies[ref_h], &mut bref);
        let ghost b0i = binc;
        let ghost b0r = bref;
        let in_range = binc.velocity.x >= -0x40_0000_0000_0000_0000 && binc.velocity.x
            <= 0x40_0000_0000_0000_0000 && binc.velocity.y >= -0x40_0000_0000_0000_0000
            && binc.velocity.y <= 0x40_0000_0000_0000_0000 && binc.angular_velocity
            >= -0x40_0000_0000_0000_0000 && binc.angular_velocity <= 0x40_0000_0000_0000_0000
            && bref.velocity.x >= -0x40_0000_0000_0000_0000 && bref.velocity.x
            <= 0x40_0000_0000_0000_0000 && bref.velocity.y >= -0x40_0000_0000_0000_0000
            && bref.velocity.y <= 0x40_0000_0000_0000_0000 && bref.angular_velocity
            >= -0x40_0000_0000_0000_0000 && bref.angular_velocity <= 0x40_0000_0000_0000_0000;
        proof {
            assert(in_range == resolve_ranges_ok(b0i, b0r));
        }
        if in_range {
            let constraint = &mut self.collision_map[k].1;
            constraint.pre_solve(inv_dt, &mut binc, &mut bref);
            let mut it: usize = 0;
            while it < self.iteration_count
                invariant
                    it <= self.iteration_count,
                    binc.mass_ok(),
                    bref.mass_ok(),
                    m0 == old(self).collision_map@[k as int].1.manifold@,
                    b0i == old(self).bodies@[inc_h as int],
                    b0r == old(self).bodies@[ref_h as int],
                    ({
                        let p = presolve_spec(m0, b0i, b0r, inv_dt as int);
                        let q = solve_iters_spec(p.0, p.1, p.2, it as int);
                        self.collision_map@[k as int].1.manifold@ == q.0 && binc == q.1 && bref
                            == q.2
                    }),
                    binc == (Body {
                        velocity: binc.velocity,
                        angular_velocity: binc.angular_velocity,
                        ..old(self).bodies@[inc_h as int]
                    }),
                    bref == (Body {
                        velocity: bref.velocity,
                        angular_velocity: bref.angular_velocity,
                        ..old(self).bodies@[ref_h as int]
                    }),
                    inc_h < old(self).bodies@.len(),
                    ref_h < old(self).bodies@.len(),
                    inc_h == old(self).collision_map@[k as int].1.incident_body,
                    ref_h == old(self).collision_map@[k as int].1.reference_body,
                    k < self.collision_map@.len(),
                    self.collision_map@.len() == old(self).collision_map@.len(),
                    self.iteration_count == old(self).iteration_count,
                    self.bodies@.len() == old(self).bodies@.len(),
                    self.bodies@ == old(self).bodies@.update(
                        inc_h as int,
                        placeholder_spec(),
                    ).update(ref_h as int, placeholder_spec()),
                    self.collision_map@[k as int].1.incident_body == inc_h,
                    self.collision_map@[k as int].1.reference_body == ref_h,
                    self.collision_map@[k as int].1.manifold@.len() <= 2,
                    forall|kk: int|
                        0 <= kk < self.collision_map@.len() && kk != k ==> (
                        #[trigger] self.collision_map@[kk]) == old(self).collision_map@[kk],
                    self.collision_map@[k as int].0 == old(self).collision_map@[k as int].0,
                decreases self.iteration_count - it,
            {
                let constraint2 = &mut self.collision_map[k].1;
                constraint2.solve(&mut binc, &mut bref);
                it += 1;
            }
        }
        let ghost fin_i = binc;
        let ghost fin_r = bref;
        core::mem::swap(&mut self.bodies[inc_h], &mut binc);
        core::mem::swap(&mut self.bodies[ref_h], &mut bref);
        proof {
            assert(self.bodies@ =~= old(self).bodies@.update(inc_h as int, fin_i).update(
                ref_h as int,
                fin_r,
            ));
            let st = solve_entry_spec(
                m0,
                b0i,
                b0r,
                inv_dt as int,
                old(self).iteration_count as int,
            );
            assert(self.collision_map@[k as int].1.manifold@ == st.0);
            assert(fin_i == st.1);
            assert(fin_r == st.2);
        }
    }

    /// Advance every body by semi-implicit Euler integration; a body whose
    /// state has left the operating range is left unmoved.
    pub fn integrate(&mut self, dt: i128, gravity: Vec2)
        requires
            0 < dt <= FX_ONE,
            gravity.bounded(0x10_0000_0000),
        ensures
            final(self).bodies@.len() == old(self).bodies@.len(),
            final(self).iteration_count == old(self).iteration_count,
            final(self).collision_map == old(self).collision_map,
            forall|b: int|
                0 <= b < old(self).bodies@.len() ==> (#[trigger] final(self).bodies@[b]) == if old(self).bodies@[b].wf() {
                    Body::integrate_spec(old(self).bodies@[b], dt as int, gravity)
                } else {
                    old(self).bodies@[b]
                },
    {
        let n = self.bodies.len();
        let mut b: usize = 0;
        while b < n
            invariant
                0 < dt <= FX_ONE,
                gravity.bounded(0x10_0000_0000),
                n == self.bodies@.len(),
                self.bodies@.len() == old(self).bodies@.len(),
                self.collision_map == old(self).collision_map,
                self.iteration_count == old(self).iteration_count,
                b <= n,
                forall|bb: int|
                    0 <= bb < b ==> (#[trigger] self.bodies@[bb]) == if old(self).bodies@[bb].wf() {
                        Body::integrate_spec(old(self).bodies@[bb], dt as int, gravity)
                    } else {
                        old(self).bodies@[bb]
                    },
                forall|bb: int|
                    b <= bb < n ==> (#[trigger] self.bodies@[bb]) == old(self).bodies@[bb],
            decreases n - b,
        {
            let slot = &mut self.bodies[b];
            if slot.in_range() {
                slot.integrate(dt, gravity);
            }
            b += 1;
        }
    }
}

/// A static, colliderless filler used while a body is borrowed out of the
/// arena.
fn placeholder_body() -> (r: Body)
    ensures
        r == placeholder_spec(),
{
    Body::new(
        Vec2 { x: 0, y: 0 },
        0,
        Vec2 { x: 0, y: 0 },
        None,
        0,
        0,
        0,
        0,
        true,
    )
}

/// The placeholder body's value.
pub open spec fn placeholder_spec() -> Body {
    Body {
        position: Vec2 { x: 0, y: 0 },
        rotation: 0,
        scale: Vec2 { x: 0, y: 0 },
        collider: None,
        mass: 0,
        inertia: 0,
        restitution: 0,
        friction: 0,
        is_static: true,
        velocity: Vec2 { x: 0, y: 0 },
        net_force: Vec2 { x: 0, y: 0 },
        center_of_gravity: Vec2 { x: 0, y: 0 },
        angular_velocity: 0,
        moment: 0,
    }
}

/// Frame law, detection half: an entry of the new constraint map has only
/// nonnegative accumulated normal impulses whenever every manifold of the
/// previous map had — fresh contacts start at zero and warm starting copies
/// nonnegative values.
pub proof fn lemma_detection_entry_nonneg(
    bodies: Seq<Body>,
    prev: Seq<((usize, usize), CollisionConstraint)>,
    e: ((usize, usize), CollisionConstraint),
)
    requires
        entry_ok(bodies, prev, e),
        forall|k: int| 0 <= k < prev.len() ==> manifold_nonneg((#[trigger] prev[k]).1.manifold@),
    ensures
        manifold_nonneg(e.1.manifold@),
{
    reveal(entry_ok);
    let sat = pair_sat_spec(bodies, e.0.0 as int, e.0.1 as int);
    lemma_map_prev_manifold_nonneg(prev, e.0, e.1.incident_body, e.1.reference_body, 0);
    lemma_manifold_spec_fresh(
        bodies[e.1.incident_body as int].world_collider_points_spec(),
        bodies[e.1.reference_body as int].world_collider_points_spec(),
        sat->Some_0.1.0,
        sat->Some_0.1.1,
    );
    lemma_update_manifold_nonneg(
        map_prev_manifold(prev, e.0, e.1.incident_body, e.1.reference_body, 0),
        manifold_spec(
            bodies[e.1.incident_body as int].world_collider_points_spec(),
            bodies[e.1.reference_body as int].world_collider_points_spec(),
            sat->Some_0.1.0,
            sat->Some_0.1.1,
        ),
    );
}

/// Repeated solver passes keep every accumulated normal impulse nonnegative:
/// each pass clamps at zero or leaves a contact untouched.
pub proof fn lemma_solve_iters_nonneg(m: Seq<ContactPoint>, inc: Body, refb: Body, iters: int)
    requires
        manifold_nonneg(m),
    ensures
        manifold_nonneg(solve_iters_spec(m, inc, refb, iters).0),
    decreases iters,
{
    if iters > 0 {
        lemma_solve_iters_nonneg(m, inc, refb, iters - 1);
        let p = solve_iters_spec(m, inc, refb, iters - 1);
        lemma_solve_fold_frame(p.0, p.0.len() as int, p.1, p.2);
        lemma_solve_fold_nonneg(p.0, p.0.len() as int, p.1, p.2);
    }
}

/// Resolving one map entry keeps its accumulated normal impulses
/// nonnegative: pre-solve copies them, every solver pass clamps at zero.
pub proof fn lemma_solve_entry_spec_nonneg(
    m: Seq<ContactPoint>,
    inc: Body,
    refb: Body,
    inv_dt: int,
    iters: int,
)
    requires
        manifold_nonneg(m),
    ensures
        manifold_nonneg(solve_entry_spec(m, inc, refb, inv_dt, iters).0),
{
    if resolve_ranges_ok(inc, refb) {
        lemma_presolve_keeps_accumulators(m, inc, refb, inv_dt);
        let p = presolve_spec(m, inc, refb, inv_dt);
        assert(manifold_nonneg(p.0));
        lemma_solve_iters_nonneg(p.0, p.1, p.2, iters);
    }
}

/// Frame law, solving half: a whole resolve pass over the map keeps every
/// constraint's accumulated normal impulses nonnegative.
pub proof fn lemma_resolve_fold_keeps_nonneg(
    map: Seq<((usize, usize), CollisionConstraint)>,
    k: int,
    bodies: Seq<Body>,
    inv_dt: int,
    iters: int,
)
    requires
        0 <= k <= map.len(),
        forall|kk: int|
            0 <= kk < k ==> (#[trigger] map[kk]).1.incident_body < bodies.len()
                && map[kk].1.reference_body < bodies.len(),
        forall|kk: int| 0 <= kk < map.len() ==> manifold_nonneg((#[trigger] map[kk]).1.manifold@),
    ensures
        forall|kk: int|
            0 <= kk < k ==> manifold_nonneg(
                #[trigger] resolve_fold(map, k, bodies, inv_dt, iters).0[kk],
            ),
    decreases k,
{
    if k > 0 {
        lemma_resolve_fold_keeps_nonneg(map, k - 1, bodies, inv_dt, iters);
        lemma_resolve_fold_len(map, k - 1, bodies, inv_dt, iters);
        let p = resolve_fold(map, k - 1, bodies, inv_dt, iters);
        let e = map[k - 1];
        lemma_solve_entry_spec_nonneg(
            e.1.manifold@,
            p.1[e.1.incident_body as int],
            p.1[e.1.reference_body as int],
            inv_dt,
            iters,
        );
        assert forall|kk: int| 0 <= kk < k implies manifold_nonneg(
            #[trigger] resolve_fold(map, k, bodies, inv_dt, iters).0[kk],
        ) by {
            if kk < k - 1 {
                assert(resolve_fold(map, k, bodies, inv_dt, iters).0[kk] == p.0[kk]);
            }
        }
    }
}

} // verus!
