//! A rigid body: pose, mass properties, velocity, and an optional convex
//! collider.
//!
//! A static body has inverse mass and inverse inertia zero whatever its
//! stored mass and inertia, so impulses and integration leave it unmoved;
//! every mutation honors this uniformly.

use vstd::prelude::*;
use vstd::math::abs;
use crate::fx::{div_trunc, fx_div, fx_mul, tdiv, FX_ONE};
use crate::polygon::{check_collision_spec, wf_points_seq, world_points_seq, Polygon};
use crate::transform::{apply_x_spec, apply_y_spec, pose_entries_spec, tuple_of, Transform};
use crate::trig::{cos_fx, cos_spec, sin_fx, sin_spec};
use crate::vec2::Vec2;

verus! {

/// A rigid body and its physical state.
#[derive(Debug)]
pub struct Body {
    pub position: Vec2,
    pub rotation: i128,
    pub scale: Vec2,
    pub collider: Option<Polygon>,
    pub mass: i128,
    pub inertia: i128,
    pub restitution: i128,
    pub friction: i128,
    pub is_static: bool,
    pub velocity: Vec2,
    pub net_force: Vec2,
    pub center_of_gravity: Vec2,
    pub angular_velocity: i128,
    pub moment: i128,
}

impl Body {
    /// The body's state stays within the engine's operating range, and a
    /// dynamic body has usable (not too small, not too large) mass and
    /// inertia.
    pub open spec fn wf(self) -> bool {
        &&& self.position.bounded(0x100_0000_0000)
        &&& abs(self.rotation as int) <= 0x1_0000_0000_0000
        &&& self.scale.bounded(0x10_0000)
        &&& self.velocity.bounded(0x100_0000_0000)
        &&& self.net_force.bounded(0x100_0000_0000)
        &&& self.center_of_gravity.bounded(0x10_0000_0000)
        &&& abs(self.angular_velocity as int) <= 0x100_0000_0000
        &&& abs(self.moment as int) <= 0x100_0000_0000
        &&& 0 <= self.mass <= 0x1_0000_0000_0000
        &&& 0 <= self.inertia <= 0x1_0000_0000_0000
        &&& (!self.is_static ==> self.mass >= 0x100 && self.inertia >= 0x100)
        &&& (match self.collider {
            Some(c) => c.wf_pose() && c.local_bounded() && wf_points_seq(c.points@),
            None => true,
        })
    }

    /// The mass properties alone are usable: what inverse mass and inverse
    /// inertia need.
    pub open spec fn mass_ok(self) -> bool {
        &&& 0 <= self.mass <= 0x1_0000_0000_0000
        &&& 0 <= self.inertia <= 0x1_0000_0000_0000
        &&& (!self.is_static ==> self.mass >= 0x100 && self.inertia >= 0x100)
    }

    /// The pose fields alone are in range: what the transform and the world
    /// center of gravity need.
    pub open spec fn pose_wf(self) -> bool {
        &&& self.position.bounded(0x100_0000_0000)
        &&& abs(self.rotation as int) <= 0x1_0000_0000_0000
        &&& self.scale.bounded(0x10_0000)
        &&& self.center_of_gravity.bounded(0x10_0000_0000)
    }

    /// Entries of the body's pose transform.
    pub open spec fn transform_entries_spec(self) -> (int, int, int, int, int, int) {
        pose_entries_spec(
            self.position,
            cos_spec(self.rotation as int),
            sin_spec(self.rotation as int),
            self.scale,
        )
    }

    /// The inverse mass used by impulses: zero for a static body.
    pub open spec fn inv_mass_spec(self) -> int {
        if self.is_static {
            0
        } else {
            tdiv(FX_ONE as int * FX_ONE as int, self.mass as int)
        }
    }

    /// The inverse inertia used by angular impulses: zero for a static body.
    pub open spec fn inv_inertia_spec(self) -> int {
        if self.is_static {
            0
        } else {
            tdiv(FX_ONE as int * FX_ONE as int, self.inertia as int)
        }
    }

    /// Semi-implicit Euler integration as a mathematical value.
    pub open spec fn integrate_spec(b: Body, dt: int, gravity: Vec2) -> Body {
        if b.is_static {
            b
        } else {
            let s = FX_ONE as int;
            let invm = tdiv(s * s, b.mass as int);
            let ax = tdiv(b.net_force.x * invm, s) + gravity.x;
            let ay = tdiv(b.net_force.y * invm, s) + gravity.y;
            let vx = b.velocity.x + tdiv(ax * dt, s);
            let vy = b.velocity.y + tdiv(ay * dt, s);
            let px = b.position.x + tdiv(vx * dt, s);
            let py = b.position.y + tdiv(vy * dt, s);
            let aa = tdiv(b.moment * s, b.inertia as int);
            let w = b.angular_velocity + tdiv(aa * dt, s);
            let rot = b.rotation + tdiv(w * dt, s);
            Body {
                position: Vec2 { x: px as i128, y: py as i128 },
                rotation: rot as i128,
                velocity: Vec2 { x: vx as i128, y: vy as i128 },
                angular_velocity: w as i128,
                ..b
            }
        }
    }

    /// The world vertices of this body's collider (unspecified when there is
    /// no collider).
    pub open spec fn world_collider_points_spec(self) -> Seq<Vec2> {
        let c = self.collider->Some_0;
        world_points_seq(c.points@, c.world_entries_spec(self.transform_entries_spec()))
    }

    /// A body at rest with the given pose, collider and mass properties.
    pub fn new(
        position: Vec2,
        rotation: i128,
        scale: Vec2,
        collider: Option<Polygon>,
        mass: i128,
        inertia: i128,
        restitution: i128,
        friction: i128,
        is_static: bool,
    ) -> (r: Body)
        requires
            position.bounded(0x100_0000_0000),
            abs(rotation as int) <= 0x1_0000_0000_0000,
            scale.bounded(0x10_0000),
            0 <= mass <= 0x1_0000_0000_0000,
            0 <= inertia <= 0x1_0000_0000_0000,
            !is_static ==> mass >= 0x100 && inertia >= 0x100,
            match collider {
                Some(c) => c.wf_pose() && c.local_bounded() && wf_points_seq(c.points@),
                None => true,
            },
        ensures
            r.position == position,
            r.rotation == rotation,
            r.scale == scale,
            r.collider == collider,
            r.mass == mass,
            r.inertia == inertia,
            r.restitution == restitution,
            r.friction == friction,
            r.is_static == is_static,
            r.velocity == (Vec2 { x: 0, y: 0 }),
            r.net_force == (Vec2 { x: 0, y: 0 }),
            r.center_of_gravity == (Vec2 { x: 0, y: 0 }),
            r.angular_velocity == 0,
            r.moment == 0,
            r.wf(),
    {
        Body {
            position,
            rotation,
            scale,
            collider,
            mass,
            inertia,
            restitution,
            friction,
            is_static,
            velocity: Vec2 { x: 0, y: 0 },
            net_force: Vec2 { x: 0, y: 0 },
            center_of_gravity: Vec2 { x: 0, y: 0 },
            angular_velocity: 0,
            moment: 0,
        }
    }

    /// Decides [`Body::wf`], so unverified callers can validate a body
    /// before handing it to the core.
    pub fn in_range(&self) -> (r: bool)
        ensures
            r == self.wf(),
    {
        let base = self.position.x >= -0x100_0000_0000 && self.position.x <= 0x100_0000_0000
            && self.position.y >= -0x100_0000_0000 && self.position.y <= 0x100_0000_0000
            && self.rotation >= -0x1_0000_0000_0000 && self.rotation <= 0x1_0000_0000_0000
            && self.scale.x >= -0x10_0000 && self.scale.x <= 0x10_0000 && self.scale.y
            >= -0x10_0000 && self.scale.y <= 0x10_0000 && self.velocity.x >= -0x100_0000_0000
            && self.velocity.x <= 0x100_0000_0000 && self.velocity.y >= -0x100_0000_0000
            && self.velocity.y <= 0x100_0000_0000 && self.net_force.x >= -0x100_0000_0000
            && self.net_force.x <= 0x100_0000_0000 && self.net_force.y >= -0x100_0000_0000
            && self.net_force.y <= 0x100_0000_0000 && self.center_of_gravity.x
            >= -0x10_0000_0000 && self.center_of_gravity.x <= 0x10_0000_0000
            && self.center_of_gravity.y >= -0x10_0000_0000 && self.center_of_gravity.y
            <= 0x10_0000_0000 && self.angular_velocity >= -0x100_0000_0000
            && self.angular_velocity <= 0x100_0000_0000 && self.moment >= -0x100_0000_0000
            && self.moment <= 0x100_0000_0000 && self.mass >= 0 && self.mass
            <= 0x1_0000_0000_0000 && self.inertia >= 0 && self.inertia <= 0x1_0000_0000_0000 && (
        self.is_static || (self.mass >= 0x100 && self.inertia >= 0x100));
        if !base {
            return false;
        }
        match &self.collider {
            Some(c) => c.pose_in_range() && c.local_in_range() && c.points_well_formed(),
            None => true,
        }
    }

    pub fn is_static(&self) -> (r: bool)
        ensures
            r == self.is_static,
    {
        self.is_static
    }

    /// Inverse mass: `1 / mass`, or zero for a static body.
    pub fn inv_mass(&self) -> (r: i128)
        requires
            self.mass_ok(),
        ensures
            r as int == self.inv_mass_spec(),
            0 <= r <= 0x100_0000,
    {
        if !self.is_static {
            proof {
                crate::fx::lemma_tdiv_nonneg(FX_ONE as int * FX_ONE as int, self.mass as int);
                crate::fx::lemma_tdiv_bound_by(
                    FX_ONE as int * FX_ONE as int,
                    self.mass as int,
                    0x100_0000,
                );
            }
            div_trunc(FX_ONE * FX_ONE, self.mass)
        } else {
            0
        }
    }

    /// Inverse inertia: `1 / inertia`, or zero for a static body.
    pub fn inv_inertia(&self) -> (r: i128)
        requires
            self.mass_ok(),
        ensures
            r as int == self.inv_inertia_spec(),
            0 <= r <= 0x100_0000,
    {
        if !self.is_static {
            proof {
                crate::fx::lemma_tdiv_nonneg(FX_ONE as int * FX_ONE as int, self.inertia as int);
                crate::fx::lemma_tdiv_bound_by(
                    FX_ONE as int * FX_ONE as int,
                    self.inertia as int,
                    0x100_0000,
                );
            }
            div_trunc(FX_ONE * FX_ONE, self.inertia)
        } else {
            0
        }
    }

    /// The stored mass, read as zero for a static body.
    pub fn mass(&self) -> (r: i128)
        ensures
            r == if self.is_static {
                0i128
            } else {
                self.mass
            },
    {
        if !self.is_static {
            self.mass
        } else {
            0
        }
    }

    /// The stored inertia, read as zero for a static body.
    pub fn inertia(&self) -> (r: i128)
        ensures
            r == if self.is_static {
                0i128
            } else {
                self.inertia
            },
    {
        if !self.is_static {
            self.inertia
        } else {
            0
        }
    }

    pub fn velocity(&self) -> (r: Vec2)
        ensures
            r == self.velocity,
    {
        self.velocity
    }

    pub fn angular_velocity(&self) -> (r: i128)
        ensures
            r == self.angular_velocity,
    {
        self.angular_velocity
    }

    /// The body's pose as an affine transform.
    pub fn get_transform(&self) -> (r: Transform)
        requires
            self.pose_wf(),
        ensures
            tuple_of(r) == self.transform_entries_spec(),
            r.pose_bounded(),
    {
        let c = cos_fx(self.rotation);
        let s = sin_fx(self.rotation);
        Transform::from_pose(self.position, c, s, self.scale)
    }

    /// The center of gravity carried into world space by the body's pose.
    pub fn center_of_gravity(&self) -> (r: Vec2)
        requires
            self.pose_wf(),
        ensures
            r.x as int == apply_x_spec(self.transform_entries_spec(), self.center_of_gravity),
            r.y as int == apply_y_spec(self.transform_entries_spec(), self.center_of_gravity),
            r.bounded(0x4_0000_0000_0000),
    {
        let t = self.get_transform();
        t.apply(self.center_of_gravity)
    }

    /// Push the velocity by an impulse: `velocity += impulse / mass`. A
    /// static body is left unchanged (its inverse mass is zero).
    pub fn apply_impulse(&mut self, impulse: Vec2)
        requires
            old(self).mass_ok(),
            old(self).velocity.bounded(0x1_0000_0000_0000_0000_0000),
            impulse.bounded(0x1000_0000_0000_0000),
        ensures
            *final(self) == (Body { velocity: final(self).velocity, ..*old(self) }),
            final(self).velocity.x as int == old(self).velocity.x + tdiv(
                impulse.x * old(self).inv_mass_spec(),
                FX_ONE as int,
            ),
            final(self).velocity.y as int == old(self).velocity.y + tdiv(
                impulse.y * old(self).inv_mass_spec(),
                FX_ONE as int,
            ),
    {
        let im = self.inv_mass();
        let dv = impulse.scaled(im);
        proof {
            assert(abs(impulse.x as int * im as int) <= 0x10_0000_0000_0000_0000_0000 && abs(
                impulse.y as int * im as int,
            ) <= 0x10_0000_0000_0000_0000_0000) by (nonlinear_arith)
                requires
                    abs(impulse.x as int) <= 0x1000_0000_0000_0000,
                    abs(impulse.y as int) <= 0x1000_0000_0000_0000,
                    0 <= im as int <= 0x100_0000,
            ;
            crate::fx::lemma_tdiv_mag(impulse.x as int * im as int, FX_ONE as int);
            crate::fx::lemma_tdiv_mag(impulse.y as int * im as int, FX_ONE as int);
        }
        self.velocity = self.velocity.plus(dv);
    }

    /// Push the angular velocity by an angular impulse:
    /// `angular_velocity += impulse / inertia`. A static body is left
    /// unchanged.
    pub fn apply_angular_impulse(&mut self, impulse: i128)
        requires
            old(self).mass_ok(),
            abs(old(self).angular_velocity as int) <= 0x1_0000_0000_0000_0000_0000,
            abs(impulse as int) <= 0x1000_0000_0000_0000,
        ensures
            *final(self) == (Body { angular_velocity: final(self).angular_velocity, ..*old(self) }),
            final(self).angular_velocity as int == old(self).angular_velocity + tdiv(
                impulse * old(self).inv_inertia_spec(),
                FX_ONE as int,
            ),
    {
        let ii = self.inv_inertia();
        let dw = fx_mul(impulse, ii);
        proof {
            assert(abs(impulse as int * ii as int) <= 0x10_0000_0000_0000_0000_0000)
                by (nonlinear_arith)
                requires
                    abs(impulse as int) <= 0x1000_0000_0000_0000,
                    0 <= ii as int <= 0x100_0000,
            ;
            crate::fx::lemma_tdiv_mag(impulse as int * ii as int, FX_ONE as int);
        }
        self.angular_velocity = self.angular_velocity + dw;
    }

    /// Semi-implicit Euler integration: accelerate by forces and gravity,
    /// then advance position by the new velocity; likewise for the angular
    /// state. A static body is left unchanged.
    pub fn integrate(&mut self, dt: i128, gravity: Vec2)
        requires
            old(self).wf(),
            0 < dt <= FX_ONE,
            gravity.bounded(0x10_0000_0000),
        ensures
            *final(self) == Body::integrate_spec(*old(self), dt as int, gravity),
            old(self).is_static ==> *final(self) == *old(self),
            !old(self).is_static ==> *final(self) == (Body {
                position: final(self).position,
                rotation: final(self).rotation,
                velocity: final(self).velocity,
                angular_velocity: final(self).angular_velocity,
                ..*old(self)
            }),
            !old(self).is_static ==> {
                let invm = tdiv(FX_ONE as int * FX_ONE as int, old(self).mass as int);
                let ax = tdiv(old(self).net_force.x * invm, FX_ONE as int) + gravity.x;
                let ay = tdiv(old(self).net_force.y * invm, FX_ONE as int) + gravity.y;
                let aa = tdiv(old(self).moment * FX_ONE as int, old(self).inertia as int);
                &&& final(self).velocity.x as int == old(self).velocity.x + tdiv(
                    ax * dt,
                    FX_ONE as int,
                )
                &&& final(self).velocity.y as int == old(self).velocity.y + tdiv(
                    ay * dt,
                    FX_ONE as int,
                )
                &&& final(self).position.x as int == old(self).position.x + tdiv(
                    final(self).velocity.x * dt,
                    FX_ONE as int,
                )
                &&& final(self).position.y as int == old(self).position.y + tdiv(
                    final(self).velocity.y * dt,
                    FX_ONE as int,
                )
                &&& final(self).angular_velocity as int == old(self).angular_velocity + tdiv(
                    aa * dt,
                    FX_ONE as int,
                )
                &&& final(self).rotation as int == old(self).rotation + tdiv(
                    final(self).angular_velocity * dt,
                    FX_ONE as int,
                )
            },
    {
        if self.is_static {
            return ;
        }
        let invm = self.inv_mass();
        let scaled_force = self.net_force.scaled(invm);
        proof {
            assert(abs(self.net_force.x as int * invm as int) <= 0x1_0000_0000_0000
                * FX_ONE as int && abs(self.net_force.y as int * invm as int) <= 0x1_0000_0000_0000
                * FX_ONE as int) by (nonlinear_arith)
                requires
                    abs(self.net_force.x as int) <= 0x100_0000_0000,
                    abs(self.net_force.y as int) <= 0x100_0000_0000,
                    0 <= invm as int <= 0x100_0000,
                    FX_ONE as int == 0x1_0000,
            ;
            crate::fx::lemma_tdiv_bound_by(
                self.net_force.x as int * invm as int,
                FX_ONE as int,
                0x1_0000_0000_0000,
            );
            crate::fx::lemma_tdiv_bound_by(
                self.net_force.y as int * invm as int,
                FX_ONE as int,
                0x1_0000_0000_0000,
            );
        }
        let acceleration = scaled_force.plus(gravity);
        proof {
            crate::fx::lemma_fx_scale_bound(acceleration.x as int, dt as int, 0x4_0000_0000_0000);
            crate::fx::lemma_fx_scale_bound(acceleration.y as int, dt as int, 0x4_0000_0000_0000);
        }
        let dv = acceleration.scaled(dt);
        self.velocity = self.velocity.plus(dv);
        proof {
            crate::fx::lemma_fx_scale_bound(self.velocity.x as int, dt as int, 0x8_0000_0000_0000);
            crate::fx::lemma_fx_scale_bound(self.velocity.y as int, dt as int, 0x8_0000_0000_0000);
        }
        let dp = self.velocity.scaled(dt);
        self.position = self.position.plus(dp);
        proof {
            assert(abs(self.moment as int * FX_ONE as int) <= 0x1_0000_0000_0000
                * self.inertia as int) by (nonlinear_arith)
                requires
                    abs(self.moment as int) <= 0x100_0000_0000,
                    self.inertia as int >= 0x100,
                    FX_ONE as int == 0x1_0000,
            ;
            crate::fx::lemma_tdiv_bound_by(
                self.moment as int * FX_ONE as int,
                self.inertia as int,
                0x1_0000_0000_0000,
            );
        }
        let angular_acceleration = fx_div(self.moment, self.inertia);
        proof {
            crate::fx::lemma_fx_scale_bound(angular_acceleration as int, dt as int, 0x1_0000_0000_0000);
        }
        self.angular_velocity = self.angular_velocity + fx_mul(angular_acceleration, dt);
        proof {
            crate::fx::lemma_fx_scale_bound(self.angular_velocity as int, dt as int, 0x2_0000_0000_0000);
        }
        self.rotation = self.rotation + fx_mul(self.angular_velocity, dt);
    }

    /// A shared view of the collider, if the body has one.
    pub fn collider(&self) -> (r: Option<&Polygon>)
        ensures
            r is Some <==> self.collider is Some,
            r is Some ==> *r->Some_0 == self.collider->Some_0,
    {
        self.collider.as_ref()
    }

    /// An exclusive view of the collider slot.
    pub fn collider_mut(&mut self) -> (r: &mut Option<Polygon>)
        ensures
            *r == old(self).collider,
            *final(self) == (Body { collider: *final(r), ..*old(self) }),
    {
        &mut self.collider
    }

    /// The collider carried into world space by the body's pose, if the body
    /// has one.
    pub fn collider_in_world(&self) -> (r: Option<Polygon>)
        requires
            self.wf(),
        ensures
            r is Some <==> self.collider is Some,
            r is Some ==> r->Some_0.points@ == self.world_collider_points_spec(),
            r is Some ==> forall|i: int|
                0 <= i < r->Some_0.points@.len() ==> (#[trigger] r->Some_0.points@[i]).bounded(
                    0x4_0000_0000_0000,
                ),
    {
        match &self.collider {
            Some(c) => Some(c.get_in_world(&self.get_transform())),
            None => None,
        }
    }

    /// The separating-axis test between the world-space colliders of two
    /// bodies. A body without a collider collides with nothing, and a pose
    /// that degenerates a collider's world vertex ring is treated the same
    /// way.
    pub fn check_collision(&self, other: &Body) -> (r: Option<(bool, Vec2, i128)>)
        requires
            self.wf(),
            other.wf(),
        ensures
            (self.collider is None || other.collider is None) ==> r is None,
            (self.collider is Some && other.collider is Some) ==> ({
                let wa = self.world_collider_points_spec();
                let wb = other.world_collider_points_spec();
                if !wf_points_seq(wa) || !wf_points_seq(wb) {
                    r is None
                } else {
                    let sp = check_collision_spec(wa, wb);
                    &&& (r is Some <==> sp is Some)
                    &&& (r is Some ==> r->Some_0.0 == sp->Some_0.0)
                    &&& (r is Some ==> r->Some_0.1.x as int == sp->Some_0.1.0
                        && r->Some_0.1.y as int == sp->Some_0.1.1)
                    &&& (r is Some ==> r->Some_0.2 as int == sp->Some_0.2)
                }
            }),
    {
        let collider = match &self.collider {
            Some(c) => c,
            None => {
                return None;
            },
        };
        let other_collider = match &other.collider {
            Some(c) => c,
            None => {
                return None;
            },
        };
        let world_self = collider.get_in_world(&self.get_transform());
        let world_other = other_collider.get_in_world(&other.get_transform());
        if !world_self.points_well_formed() || !world_other.points_well_formed() {
            return None;
        }
        world_self.check_collision(&world_other)
    }
}

} // verus!
