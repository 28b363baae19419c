//! A small ray tracer over exact fixed-point arithmetic.
//!
//! Every scalar is an `i128` holding the real value times `fx::SCALE`, and
//! every operation rounds toward negative infinity, so each function's
//! behaviour is pinned exactly by a contract over the mathematical
//! integers: ray-sphere intersection by quadratic root-finding, nearest-hit
//! scene traversal, the three scattering materials, the thin-lens camera,
//! the recursive color estimator with its sampling loop, and the plain-text
//! image serialization.

pub mod camera;
pub mod color;
pub mod dielectric;
pub mod fx;
pub mod hittable;
pub mod hittable_list;
pub mod lambertian;
pub mod material;
pub mod metal;
pub mod point3;
pub mod ppm;
pub mod ray;
pub mod render;
pub mod rng;
pub mod sphere;
pub mod vec3;
