use rigid2d::body::Body;
use rigid2d::constraint::CollisionConstraint;
use rigid2d::contact::{ContactID, ContactPoint};
use rigid2d::engine::Engine;
use rigid2d::fx::{div_trunc, isqrt};
use rigid2d::plane::Plane;
use rigid2d::polygon::Polygon;
use rigid2d::transform::Transform;
use rigid2d::trig::{cos_fx, sin_fx};
use rigid2d::vec2::Vec2;
use rigid2d::FX_ONE;

fn fx(v: i128) -> i128 {
    v * FX_ONE
}

/// Counter-clockwise box vertices (outward normals are `(dy, -dx)`).
fn box_points(cx: i128, cy: i128, hw: i128, hh: i128) -> Vec<Vec2> {
    vec![
        Vec2::new(cx - hw, cy - hh),
        Vec2::new(cx + hw, cy - hh),
        Vec2::new(cx + hw, cy + hh),
        Vec2::new(cx - hw, cy + hh),
    ]
}

fn identity_polygon(points: Vec<Vec2>) -> Polygon {
    Polygon::new(points, Vec2::new(0, 0), 0, Vec2::new(FX_ONE, FX_ONE))
}

fn box_body(cx: i128, cy: i128, hw: i128, hh: i128, mass: i128, inertia: i128, is_static: bool) -> Body {
    let collider = identity_polygon(box_points(0, 0, hw, hh));
    Body::new(
        Vec2::new(cx, cy),
        0,
        Vec2::new(FX_ONE, FX_ONE),
        Some(collider),
        mass,
        inertia,
        0,
        0,
        is_static,
    )
}

#[test]
fn fixed_point_division_truncates_toward_zero() {
    assert_eq!(div_trunc(7, 2), 3);
    assert_eq!(div_trunc(-7, 2), -3);
    assert_eq!(div_trunc(7, -2), -3);
    assert_eq!(div_trunc(-7, -2), 3);
}

#[test]
fn integer_square_root_is_exact_floor() {
    assert_eq!(isqrt(0), 0);
    assert_eq!(isqrt(1), 1);
    assert_eq!(isqrt(15), 3);
    assert_eq!(isqrt(16), 4);
    assert_eq!(isqrt(1 << 40), 1 << 20);
}

#[test]
fn trig_at_zero_is_exact() {
    assert_eq!(cos_fx(0), FX_ONE);
    assert_eq!(sin_fx(0), 0);
}

#[test]
fn plane_signed_distance_is_positive_outside() {
    // A horizontal edge from (0,0) to (4,0); its outward normal points
    // toward negative y.
    let p = Plane::new(Vec2::new(0, 0), Vec2::new(fx(4), 0));
    let outside = Vec2::new(0, -fx(1));
    let inside = Vec2::new(0, fx(1));
    assert_eq!(p.distance_to(&outside), fx(1));
    assert_eq!(p.distance_to(&inside), -fx(1));
}

#[test]
fn plane_clips_a_crossing_segment() {
    let boundary = Plane::new(Vec2::new(0, 0), Vec2::new(fx(4), 0));
    let crossing = Plane::new(Vec2::new(fx(1), -fx(2)), Vec2::new(fx(1), fx(2)));
    let hit = boundary.find_intersection(&crossing).expect("segment crosses the line");
    assert_eq!(hit.x, fx(1));
    assert_eq!(hit.y, 0);
    let missing = Plane::new(Vec2::new(fx(1), fx(1)), Vec2::new(fx(1), fx(3)));
    assert!(boundary.find_intersection(&missing).is_none());
}

#[test]
fn support_point_follows_direction() {
    let poly = identity_polygon(box_points(0, 0, fx(1), fx(1)));
    let s = poly.map_support(Vec2::new(fx(1), fx(1)));
    assert_eq!(s.x, fx(1));
    assert_eq!(s.y, fx(1));
}

#[test]
fn separated_boxes_do_not_collide_in_either_order() {
    let a = identity_polygon(box_points(0, 0, fx(1), fx(1)));
    let b = identity_polygon(box_points(fx(5), 0, fx(1), fx(1)));
    assert!(a.check_collision(&b).is_none());
    assert!(b.check_collision(&a).is_none());
}

#[test]
fn exactly_touching_boxes_are_not_colliding() {
    // Boxes sharing the edge x = 1: zero gap, zero overlap. Touching means
    // not colliding, by strict inequality on penetration.
    let a = identity_polygon(box_points(0, 0, fx(1), fx(1)));
    let b = identity_polygon(box_points(fx(2), 0, fx(1), fx(1)));
    assert!(a.check_collision(&b).is_none());
    assert!(b.check_collision(&a).is_none());
}

#[test]
fn overlap_roles_swap_and_depth_matches() {
    // A box whose top a diamond's lower tip penetrates by exactly one unit:
    // the shallower axis belongs to the box, so the box is the reference in
    // both argument orders, with the same unit normal and depth. (Two
    // parallel-faced boxes would tie on depth; the role-swap law speaks of
    // pairs whose two best axes differ.)
    let a = identity_polygon(box_points(0, 0, fx(5), fx(5)));
    let b = identity_polygon(vec![
        Vec2::new(0, fx(4)),
        Vec2::new(fx(5), fx(9)),
        Vec2::new(0, fx(14)),
        Vec2::new(-fx(5), fx(9)),
    ]);
    let r_ab = a.check_collision(&b).expect("shapes overlap");
    let r_ba = b.check_collision(&a).expect("shapes overlap");
    assert_eq!(r_ab.0, !r_ba.0);
    assert_eq!(r_ab.1, r_ba.1);
    assert_eq!(r_ab.2, r_ba.2);
    assert_eq!(r_ab.2, -fx(1));
    assert!(r_ab.0);
}

#[test]
fn world_copy_under_identity_transform_is_unchanged() {
    let poly = identity_polygon(box_points(fx(3), -fx(2), fx(1), fx(1)));
    let world = poly.get_in_world(&Transform::identity());
    assert_eq!(world.points.len(), poly.points.len());
    for k in 0..poly.points.len() {
        assert_eq!(world.points[k], poly.points[k]);
    }
}

fn contact_with_id(id: ContactID, acc_n: i128, acc_t: i128, acc_b: i128) -> ContactPoint {
    let plane = Plane::new(Vec2::new(0, 0), Vec2::new(fx(1), 0));
    let mut c = ContactPoint::new(Vec2::new(0, 0), Vec2::new(0, -FX_ONE), -100, plane, plane, id);
    c.set_accumulated_normal_impulse(acc_n);
    c.set_accumulated_tangent_impulse(acc_t);
    c.set_accumulated_position_bias_impulse(acc_b);
    c
}

#[test]
fn warm_start_copies_impulses_for_matching_identity() {
    let k = ContactID::new(false, 2, true, 5);
    let other = ContactID::new(false, 1, false, 0);
    let old_manifold = vec![contact_with_id(k, 777, 55, 3)];
    let mut constraint = CollisionConstraint::new(old_manifold, 0, 1);
    let fresh = vec![contact_with_id(other, 0, 0, 0), contact_with_id(k, 0, 0, 0)];
    constraint.update_manifold(fresh);
    assert_eq!(constraint.manifold[1].accumulated_normal_impulse, 777);
    assert_eq!(constraint.manifold[1].accumulated_tangent_impulse, 55);
    assert_eq!(constraint.manifold[1].accumulated_position_bias_impulse, 3);
    assert_eq!(constraint.manifold[0].accumulated_normal_impulse, 0);
}

#[test]
fn warm_start_with_unchanged_manifold_is_idempotent() {
    let k1 = ContactID::new(false, 0, true, 1);
    let k2 = ContactID::new(false, 0, true, 3);
    let old_manifold = vec![contact_with_id(k1, 1234, 8, 1), contact_with_id(k2, 4321, 9, 2)];
    let mut constraint = CollisionConstraint::new(old_manifold, 0, 1);
    let same = vec![contact_with_id(k1, 0, 0, 0), contact_with_id(k2, 0, 0, 0)];
    constraint.update_manifold(same);
    assert_eq!(constraint.manifold[0].accumulated_normal_impulse, 1234);
    assert_eq!(constraint.manifold[0].accumulated_tangent_impulse, 8);
    assert_eq!(constraint.manifold[0].accumulated_position_bias_impulse, 1);
    assert_eq!(constraint.manifold[1].accumulated_normal_impulse, 4321);
}

#[test]
fn static_body_ignores_impulses_and_integration() {
    let mut b = box_body(0, 0, fx(1), fx(1), 0, 0, true);
    b.apply_impulse(Vec2::new(fx(10), fx(10)));
    b.apply_angular_impulse(fx(3));
    b.integrate(FX_ONE / 60, Vec2::new(0, fx(5)));
    assert_eq!(b.velocity().x, 0);
    assert_eq!(b.velocity().y, 0);
    assert_eq!(b.angular_velocity(), 0);
    assert_eq!(b.position, Vec2::new(0, 0));
}

#[test]
fn dynamic_body_gains_gravity_velocity() {
    let mut b = box_body(0, 0, fx(1), fx(1), fx(1), fx(1), false);
    let dt = FX_ONE / 60;
    b.integrate(dt, Vec2::new(0, fx(6)));
    // velocity.y == 6 * dt, position.y == velocity.y * dt (semi-implicit).
    assert_eq!(b.velocity().y, div_trunc(fx(6) * dt, FX_ONE));
    assert_eq!(b.position.y, div_trunc(b.velocity().y * dt, FX_ONE));
}

/// Resting contact: a dynamic 100 x 100 box dropped from (1000, 880) onto a
/// static 200 x 20 box centered at (1000, 1010), under gravity, ten solver
/// iterations per 1/60 s frame. The box must come to rest on the platform:
/// vertical speed below 0.01 and height settled within the penetration slop,
/// with no sustained sinking; accumulated normal impulses never negative.
#[test]
fn resting_contact_stabilizes_on_platform() {
    let platform = box_body(fx(1000), fx(1010), fx(100), fx(10), 0, 0, true);
    let falling = box_body(fx(1000), fx(880), fx(50), fx(50), fx(1), fx(1666), false);
    let mut engine = Engine::new(vec![platform, falling], 10);
    let dt = FX_ONE / 60;
    let gravity = Vec2::new(0, fx(5));
    let mut height_at_check: i128 = 0;
    for frame in 0..600 {
        engine.check_collisions();
        engine.resolve_collisions(dt);
        engine.integrate(dt, gravity);
        for k in 0..engine.collision_map.len() {
            let manifold = &engine.collision_map[k].1.manifold;
            for c in 0..manifold.len() {
                assert!(manifold[c].accumulated_normal_impulse >= 0);
            }
        }
        if frame == 450 {
            height_at_check = engine.bodies[1].position.y;
        }
    }
    let final_y = engine.bodies[1].position.y;
    let final_vy = engine.bodies[1].velocity().y;
    // Vertical speed below 0.01 after settling.
    assert!(final_vy.abs() < FX_ONE / 100, "vertical speed too large: {final_vy}");
    // Resting height: the box bottom (y + 50) sits on the platform top
    // (y = 1000). The Baumgarte equilibrium leaves a residual penetration of
    // slop + g*dt^2/bias_factor (about 0.024 here), so the box may rest a
    // little below the geometric contact height; the 0.01 slop itself is
    // enforced as frame-to-frame *stability* of the height below.
    let rest_y = fx(950);
    assert!(final_y >= rest_y - FX_ONE / 100, "box floats: {final_y}");
    assert!(final_y <= rest_y + FX_ONE / 10, "box sank: {final_y}");
    // No sustained sinking between frame 450 and 600.
    assert!((final_y - height_at_check).abs() <= FX_ONE / 100);
    // The pair is still in contact.
    assert!(engine.collision_map.len() == 1);
}

#[test]
fn colliding_pair_gets_constraint_and_separated_pair_loses_it() {
    let a = box_body(0, 0, fx(1), fx(1), fx(1), fx(1), false);
    let b = box_body(fx(1), 0, fx(1), fx(1), fx(1), fx(1), false);
    let mut engine = Engine::new(vec![a, b], 4);
    engine.check_collisions();
    assert_eq!(engine.collision_map.len(), 1);
    assert_eq!(engine.collision_map[0].0, (0, 1));
    // Move them apart; the stale constraint must be removed.
    engine.bodies[0].position = Vec2::new(-fx(10), 0);
    engine.check_collisions();
    assert_eq!(engine.collision_map.len(), 0);
}
