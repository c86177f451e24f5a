//! A Monte Carlo path tracer over exact fixed-point arithmetic.
//!
//! Scene geometry (spheres, moving spheres, triangles), an axis-aligned
//! bounding-box slab test, a bounding-volume hierarchy, a material
//! scattering model and a sample-accumulating renderer, all verified:
//! every coordinate is a saturating binary fixed-point scalar, so each
//! computation has an exact mathematical specification.

pub mod aabb;
pub mod bvh_node;
pub mod camera;
pub mod fixed;
pub mod hitable;
pub mod hitable_list;
pub mod material;
pub mod parser;
pub mod ray;
pub mod renderer;
pub mod rng;
pub mod scene;
pub mod sphere;
pub mod triangle;
pub mod vector;

pub use bvh_node::BvhNode;
pub use camera::Camera;
pub use fixed::Fixed;
pub use hitable::HitRecord;
pub use hitable::Hitable;
pub use hitable_list::HitableList;
pub use material::Material;
pub use parser::Parser;
pub use ray::Ray;
pub use renderer::Renderer;
pub use rng::Rng;
pub use sphere::MovingSphere;
pub use sphere::Sphere;
pub use triangle::Triangle;
pub use vector::Vec3;
