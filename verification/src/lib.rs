//! A 2D rigid-body collision and contact-resolution core for convex polygons.
//!
//! Collision detection uses the separating-axis test between convex polygons;
//! overlapping pairs get a contact manifold built by reference/incident face
//! clipping, and an iterative, warm-started, impulse-based solver resolves
//! interpenetration between rigid bodies.
//!
//! All quantities are exact fixed-point numbers: an `i128` counts units of
//! `1 / FX_ONE`. Every operation is specified exactly over the integers, so
//! each geometric and dynamic step has a provable, deterministic result.

pub mod body;
pub mod constraint;
pub mod contact;
pub mod engine;
pub mod fx;
pub mod plane;
pub mod polygon;
pub mod transform;
pub mod trig;
pub mod vec2;

pub use fx::FX_ONE;
pub use plane::Plane;
pub use vec2::Vec2;
