//! A small verified ray tracer core: sphere intersection, material
//! scattering, thin-lens camera rays and the recursive radiance estimator,
//! all over exact Q47.16 fixed-point arithmetic.

pub mod fixed;
pub mod rng;
pub mod vec3;
pub mod ray;
pub mod hittable;
pub mod material;
pub mod sphere;
pub mod hittable_list;
pub mod camera;
pub mod render;
pub mod scene;
