//! Contact identity and per-contact solver state.
//!
//! A [`ContactID`] names the pair of edges that generated a contact point;
//! equality of these identities across frames is the sole criterion for
//! treating two contacts as "the same" when warm-starting. A
//! [`ContactPoint`] carries the contact geometry and the impulse accumulators
//! that persist across frames.

use vstd::prelude::*;
use vstd::math::abs;
use crate::body::Body;
use crate::fx::{tdiv, FX_ONE};
use crate::plane::Plane;
use crate::vec2::Vec2;

verus! {

/// The cross product of a solver-range moment arm with an impulse vector is
/// bounded and safe to compute.
proof fn lemma_cross_of_arm_bound(arm: Vec2, j: Vec2)
    requires
        arm.bounded(0x4_0000_0000),
        j.bounded(0x40_0000_0000),
    ensures
        abs(arm.x as int * j.y as int) <= 0x100_0000_0000_0000_0000,
        abs(arm.y as int * j.x as int) <= 0x100_0000_0000_0000_0000,
        abs(arm.cross_spec(j)) <= 0x200_0000_0000_0000,
{
    assert(abs(arm.x as int * j.y as int) <= 0x100_0000_0000_0000_0000 && abs(
        arm.y as int * j.x as int,
    ) <= 0x100_0000_0000_0000_0000) by (nonlinear_arith)
        requires
            abs(arm.x as int) <= 0x4_0000_0000,
            abs(arm.y as int) <= 0x4_0000_0000,
            abs(j.x as int) <= 0x40_0000_0000,
            abs(j.y as int) <= 0x40_0000_0000,
    ;
    crate::fx::lemma_tdiv_bound_by(
        arm.x as int * j.y as int - arm.y as int * j.x as int,
        FX_ONE as int,
        0x200_0000_0000_0000,
    );
}

/// The identity of a contact point: which edges generated it, and whether
/// each came from the reference polygon.
#[derive(Clone, Copy, PartialEq, Eq, Structural, Debug)]
pub struct ContactID {
    pub edge_a_is_reference: bool,
    pub edge_a: usize,
    pub edge_b_is_reference: bool,
    pub edge_b: usize,
}

impl ContactID {
    pub fn new(edge_a_is_reference: bool, edge_a: usize, edge_b_is_reference: bool, edge_b: usize)
        -> (r: ContactID)
        ensures
            r == (ContactID { edge_a_is_reference, edge_a, edge_b_is_reference, edge_b }),
    {
        ContactID { edge_a_is_reference, edge_a, edge_b_is_reference, edge_b }
    }

    /// Replace the second edge; the first cannot be set, as it always names
    /// the edge the contact came from.
    pub fn set_second_edge(&mut self, is_reference: bool, index: usize)
        ensures
            *final(self) == (ContactID {
                edge_b_is_reference: is_reference,
                edge_b: index,
                ..*old(self)
            }),
    {
        self.edge_b_is_reference = is_reference;
        self.edge_b = index;
    }
}

/// A contact point and the impulses applied to it over several frames.
#[derive(Clone, Copy, PartialEq, Eq, Structural, Debug)]
pub struct ContactPoint {
    pub point: Vec2,
    pub normal: Vec2,
    pub penetration: i128,
    pub to_incident: Vec2,
    pub to_reference: Vec2,
    pub accumulated_normal_impulse: i128,
    pub accumulated_tangent_impulse: i128,
    pub accumulated_position_bias_impulse: i128,
    pub effective_mass: i128,
    pub tangent_mass: i128,
    pub bias: i128,
    pub id: ContactID,
    pub incident_plane: Plane,
    pub reference_plane: Plane,
}

impl ContactPoint {
    /// The state fed to the solver stays within its operating range: a unit
    /// normal, moment arms and contact position in the solver's coordinate
    /// range, and bounded accumulators and masses.
    pub open spec fn solver_bounded(self) -> bool {
        &&& self.normal.bounded(0x2_0000)
        &&& self.point.bounded(0x1_0000_0000)
        &&& self.to_incident.bounded(0x4_0000_0000)
        &&& self.to_reference.bounded(0x4_0000_0000)
        &&& abs(self.accumulated_normal_impulse as int) <= 0x10_0000_0000
        &&& abs(self.accumulated_tangent_impulse as int) <= 0x10_0000_0000
        &&& abs(self.accumulated_position_bias_impulse as int) <= 0x10_0000_0000
        &&& abs(self.effective_mass as int) <= 0x100_0000_0000
        &&& abs(self.tangent_mass as int) <= 0x100_0000_0000
        &&& abs(self.bias as int) <= 0x1000_0000_0000
        &&& abs(self.penetration as int) <= 0x100_0000_0000
    }

    /// Decides [`ContactPoint::solver_bounded`].
    pub fn in_solver_range(&self) -> (r: bool)
        ensures
            r == self.solver_bounded(),
    {
        self.normal.x >= -0x2_0000 && self.normal.x <= 0x2_0000 && self.normal.y >= -0x2_0000
            && self.normal.y <= 0x2_0000 && self.point.x >= -0x1_0000_0000 && self.point.x
            <= 0x1_0000_0000 && self.point.y >= -0x1_0000_0000 && self.point.y <= 0x1_0000_0000
            && self.to_incident.x >= -0x4_0000_0000 && self.to_incident.x <= 0x4_0000_0000
            && self.to_incident.y >= -0x4_0000_0000 && self.to_incident.y <= 0x4_0000_0000
            && self.to_reference.x >= -0x4_0000_0000 && self.to_reference.x <= 0x4_0000_0000
            && self.to_reference.y >= -0x4_0000_0000 && self.to_reference.y <= 0x4_0000_0000
            && self.accumulated_normal_impulse >= -0x10_0000_0000 && self.accumulated_normal_impulse
            <= 0x10_0000_0000 && self.accumulated_tangent_impulse >= -0x10_0000_0000
            && self.accumulated_tangent_impulse <= 0x10_0000_0000
            && self.accumulated_position_bias_impulse >= -0x10_0000_0000
            && self.accumulated_position_bias_impulse <= 0x10_0000_0000 && self.effective_mass
            >= -0x100_0000_0000 && self.effective_mass <= 0x100_0000_0000 && self.tangent_mass
            >= -0x100_0000_0000 && self.tangent_mass <= 0x100_0000_0000 && self.bias
            >= -0x1000_0000_0000 && self.bias <= 0x1000_0000_0000 && self.penetration
            >= -0x100_0000_0000 && self.penetration <= 0x100_0000_0000
    }

    /// X component of the accumulated impulse vector
    /// `normal * accumulated_normal + tangent * accumulated_tangent`, with
    /// the tangent `(-normal.y, normal.x)`.
    pub open spec fn accumulated_impulse_x_spec(self) -> int {
        tdiv(self.normal.x * self.accumulated_normal_impulse, FX_ONE as int) + tdiv(
            -self.normal.y * self.accumulated_tangent_impulse,
            FX_ONE as int,
        )
    }

    /// Y component of the accumulated impulse vector.
    pub open spec fn accumulated_impulse_y_spec(self) -> int {
        tdiv(self.normal.y * self.accumulated_normal_impulse, FX_ONE as int) + tdiv(
            self.normal.x * self.accumulated_tangent_impulse,
            FX_ONE as int,
        )
    }

    /// A fresh contact point: geometry from this frame, accumulators zeroed
    /// (they are filled by warm-starting).
    pub fn new(
        point: Vec2,
        normal: Vec2,
        penetration: i128,
        incident_plane: Plane,
        reference_plane: Plane,
        id: ContactID,
    ) -> (r: ContactPoint)
        ensures
            r == (ContactPoint {
                point,
                normal,
                penetration,
                to_incident: Vec2 { x: 0, y: 0 },
                to_reference: Vec2 { x: 0, y: 0 },
                accumulated_normal_impulse: 0,
                accumulated_tangent_impulse: 0,
                accumulated_position_bias_impulse: 0,
                effective_mass: 0,
                tangent_mass: 0,
                bias: 0,
                id,
                incident_plane,
                reference_plane,
            }),
    {
        ContactPoint {
            point,
            normal,
            penetration,
            to_incident: Vec2 { x: 0, y: 0 },
            to_reference: Vec2 { x: 0, y: 0 },
            accumulated_normal_impulse: 0,
            accumulated_tangent_impulse: 0,
            accumulated_position_bias_impulse: 0,
            effective_mass: 0,
            tangent_mass: 0,
            bias: 0,
            id,
            incident_plane,
            reference_plane,
        }
    }

    /// Copy the other contact's accumulated impulses onto this one: the
    /// warm-starting transfer between an old manifold and a new one.
    pub fn warm_start(&mut self, other: &ContactPoint)
        ensures
            *final(self) == (ContactPoint {
                accumulated_normal_impulse: other.accumulated_normal_impulse,
                accumulated_tangent_impulse: other.accumulated_tangent_impulse,
                accumulated_position_bias_impulse: other.accumulated_position_bias_impulse,
                ..*old(self)
            }),
    {
        self.accumulated_normal_impulse = other.accumulated_normal_impulse;
        self.accumulated_tangent_impulse = other.accumulated_tangent_impulse;
        self.accumulated_position_bias_impulse = other.accumulated_position_bias_impulse;
    }

    /// Re-apply the warm-started accumulated impulse to both bodies, in
    /// opposite directions, with the matching angular impulses.
    pub fn apply_accumulated_impulses(&self, incident_body: &mut Body, reference_body: &mut Body)
        requires
            old(incident_body).mass_ok(),
            old(reference_body).mass_ok(),
            old(incident_body).velocity.bounded(0x1_0000_0000_0000_0000_0000),
            old(reference_body).velocity.bounded(0x1_0000_0000_0000_0000_0000),
            abs(old(incident_body).angular_velocity as int) <= 0x1_0000_0000_0000_0000_0000,
            abs(old(reference_body).angular_velocity as int) <= 0x1_0000_0000_0000_0000_0000,
            self.solver_bounded(),
        ensures
            ({
                let ix = self.accumulated_impulse_x_spec();
                let iy = self.accumulated_impulse_y_spec();
                let ci = tdiv(
                    self.to_incident.x * iy - self.to_incident.y * ix,
                    FX_ONE as int,
                );
                let cr = tdiv(
                    self.to_reference.x * (-iy) - self.to_reference.y * (-ix),
                    FX_ONE as int,
                );
                &&& *final(incident_body) == (Body {
                    velocity: final(incident_body).velocity,
                    angular_velocity: final(incident_body).angular_velocity,
                    ..*old(incident_body)
                })
                &&& *final(reference_body) == (Body {
                    velocity: final(reference_body).velocity,
                    angular_velocity: final(reference_body).angular_velocity,
                    ..*old(reference_body)
                })
                &&& final(incident_body).velocity.x as int == old(incident_body).velocity.x + tdiv(
                    ix * old(incident_body).inv_mass_spec(),
                    FX_ONE as int,
                )
                &&& final(incident_body).velocity.y as int == old(incident_body).velocity.y + tdiv(
                    iy * old(incident_body).inv_mass_spec(),
                    FX_ONE as int,
                )
                &&& final(incident_body).angular_velocity as int == old(
                    incident_body,
                ).angular_velocity + tdiv(
                    ci * old(incident_body).inv_inertia_spec(),
                    FX_ONE as int,
                )
                &&& final(reference_body).velocity.x as int == old(reference_body).velocity.x
                    + tdiv((-ix) * old(reference_body).inv_mass_spec(), FX_ONE as int)
                &&& final(reference_body).velocity.y as int == old(reference_body).velocity.y
                    + tdiv((-iy) * old(reference_body).inv_mass_spec(), FX_ONE as int)
                &&& final(reference_body).angular_velocity as int == old(
                    reference_body,
                ).angular_velocity + tdiv(
                    cr * old(reference_body).inv_inertia_spec(),
                    FX_ONE as int,
                )
            }),
    {
        let tangent = self.normal.perp();
        let a = self.normal.scaled(self.accumulated_normal_impulse);
        let b = tangent.scaled(self.accumulated_tangent_impulse);
        proof {
            crate::fx::lemma_fx_mul_bound(
                self.normal.x as int,
                self.accumulated_normal_impulse as int,
                0x2_0000,
                0x10_0000_0000,
                0x20_0000_0000,
            );
            crate::fx::lemma_fx_mul_bound(
                self.normal.y as int,
                self.accumulated_normal_impulse as int,
                0x2_0000,
                0x10_0000_0000,
                0x20_0000_0000,
            );
            crate::fx::lemma_fx_mul_bound(
                -self.normal.y as int,
                self.accumulated_tangent_impulse as int,
                0x2_0000,
                0x10_0000_0000,
                0x20_0000_0000,
            );
            crate::fx::lemma_fx_mul_bound(
                self.normal.x as int,
                self.accumulated_tangent_impulse as int,
                0x2_0000,
                0x10_0000_0000,
                0x20_0000_0000,
            );
        }
        let impulse = a.plus(b);
        proof {
            lemma_cross_of_arm_bound(self.to_incident, impulse);
        }
        let ci = self.to_incident.cross(impulse);
        incident_body.apply_impulse(impulse);
        incident_body.apply_angular_impulse(ci);
        let neg_impulse = impulse.neg();
        proof {
            lemma_cross_of_arm_bound(self.to_reference, neg_impulse);
        }
        let cr = self.to_reference.cross(neg_impulse);
        reference_body.apply_impulse(neg_impulse);
        reference_body.apply_angular_impulse(cr);
    }

    pub fn id(&self) -> (r: &ContactID)
        ensures
            *r == self.id,
    {
        &self.id
    }

    pub fn point(&self) -> (r: Vec2)
        ensures
            r == self.point,
    {
        self.point
    }

    pub fn normal(&self) -> (r: Vec2)
        ensures
            r == self.normal,
    {
        self.normal
    }

    pub fn penetration(&self) -> (r: i128)
        ensures
            r == self.penetration,
    {
        self.penetration
    }

    pub fn to_incident(&self) -> (r: Vec2)
        ensures
            r == self.to_incident,
    {
        self.to_incident
    }

    pub fn set_to_incident(&mut self, to_incident: Vec2)
        ensures
            *final(self) == (ContactPoint { to_incident, ..*old(self) }),
    {
        self.to_incident = to_incident;
    }

    pub fn to_reference(&self) -> (r: Vec2)
        ensures
            r == self.to_reference,
    {
        self.to_reference
    }

    pub fn set_to_reference(&mut self, to_reference: Vec2)
        ensures
            *final(self) == (ContactPoint { to_reference, ..*old(self) }),
    {
        self.to_reference = to_reference;
    }

    pub fn accumulated_normal_impulse(&self) -> (r: i128)
        ensures
            r == self.accumulated_normal_impulse,
    {
        self.accumulated_normal_impulse
    }

    pub fn set_accumulated_normal_impulse(&mut self, accumulated_normal_impulse: i128)
        ensures
            *final(self) == (ContactPoint { accumulated_normal_impulse, ..*old(self) }),
    {
        self.accumulated_normal_impulse = accumulated_normal_impulse;
    }

    pub fn accumulated_tangent_impulse(&self) -> (r: i128)
        ensures
            r == self.accumulated_tangent_impulse,
    {
        self.accumulated_tangent_impulse
    }

    pub fn set_accumulated_tangent_impulse(&mut self, accumulated_tangent_impulse: i128)
        ensures
            *final(self) == (ContactPoint { accumulated_tangent_impulse, ..*old(self) }),
    {
        self.accumulated_tangent_impulse = accumulated_tangent_impulse;
    }

    pub fn accumulated_position_bias_impulse(&self) -> (r: i128)
        ensures
            r == self.accumulated_position_bias_impulse,
    {
        self.accumulated_position_bias_impulse
    }

    pub fn set_accumulated_position_bias_impulse(
        &mut self,
        accumulated_position_bias_impulse: i128,
    )
        ensures
            *final(self) == (ContactPoint { accumulated_position_bias_impulse, ..*old(self) }),
    {
        self.accumulated_position_bias_impulse = accumulated_position_bias_impulse;
    }

    pub fn effective_mass(&self) -> (r: i128)
        ensures
            r == self.effective_mass,
    {
        self.effective_mass
    }

    pub fn set_effective_mass(&mut self, effective_mass: i128)
        ensures
            *final(self) == (ContactPoint { effective_mass, ..*old(self) }),
    {
        self.effective_mass = effective_mass;
    }

    pub fn tangent_mass(&self) -> (r: i128)
        ensures
            r == self.tangent_mass,
    {
        self.tangent_mass
    }

    pub fn set_tangent_mass(&mut self, tangent_mass: i128)
        ensures
            *final(self) == (ContactPoint { tangent_mass, ..*old(self) }),
    {
        self.tangent_mass = tangent_mass;
    }

    pub fn bias(&self) -> (r: i128)
        ensures
            r == self.bias,
    {
        self.bias
    }

    pub fn set_bias(&mut self, bias: i128)
        ensures
            *final(self) == (ContactPoint { bias, ..*old(self) }),
    {
        self.bias = bias;
    }
}

} // verus!
