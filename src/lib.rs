//! A stochastic path tracer: spheres with diffuse, metal and glass surfaces,
//! a bounding volume hierarchy that finds the nearest hit, a thin-lens camera,
//! and a Monte Carlo integrator with gamma correction.
//!
//! Every quantity is a saturating fixed-point number (see `fixed`), so that
//! geometry, traversal and shading are stated and proved over integers.
//! Random draws come from the thread's generator (see `random`); each step
//! that draws has a counterpart that takes its draws as arguments and whose
//! result is stated exactly.
pub mod fixed;
pub mod vec3;
pub mod ray;
pub mod interval;
pub mod aabb;
pub mod texture;
pub mod hittable;
pub mod material;
pub mod random;
pub mod objects;
pub mod bvh;
pub mod camera;
pub mod render;
pub mod scenes;
