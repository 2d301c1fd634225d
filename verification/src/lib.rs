//! A fixed-point Monte Carlo path tracer: vector algebra, ray-sphere
//! intersection, material scattering, a thin-lens camera, and a recursive
//! color integrator, all over scaled 64-bit integers.

pub mod camera;
pub mod hittable;
pub mod hittable_list;
pub mod material;
pub mod math;
pub mod ray;
pub mod render;
pub mod rng;
pub mod sphere;
pub mod vec3;
