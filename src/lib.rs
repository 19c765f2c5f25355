//! A ray tracer over fixed-point arithmetic: vectors, rays, spheres,
//! materials, a scene aggregate, a camera and the sampling loop.
//!
//! Every scalar is an integer counting units of `1 / vec3::ONE`, so each
//! result is exact and reproducible; rounding is always downward.
pub mod vec3;
pub mod ray;
pub mod material;
pub mod hitable;
pub mod sphere;
pub mod hitable_list;
pub mod random;
pub mod color;
pub mod tracer;
pub mod camera;
pub mod render;
