//! The decision core of a path tracer: the order of numbers, the algebra of
//! intervals and bounding boxes, the bounding volume hierarchy and the
//! branching of materials and of the radiance integrator.
//!
//! Numbers are IEEE-754 binary64 values held as bit patterns (`Scalar`).
//! Sums, products, quotients and roots are computed by the caller and handed
//! in; comparing, negating, selecting and structuring is done here, exactly.

pub mod scalar;
pub mod vec3;
pub mod interval;
pub mod aabb;
pub mod ray;
pub mod color;
pub mod object;
pub mod material;
pub mod sphere;
pub mod hittable_list;
pub mod sorting;
pub mod bvh;
pub mod camera;
pub mod texture;
pub mod utils;
