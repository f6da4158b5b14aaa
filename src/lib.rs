//! Exact ray-sphere intersection.
//!
//! Coordinates are integers on a grid of the caller's choosing; ray
//! parameters, hit points and normals are exact numbers of the form
//! `(rational + radical * sqrt(radicand)) / denom`, so the root selection,
//! the hit point and the unit normal hold exactly rather than within a
//! floating-point tolerance.
mod arith;
pub mod geometry;
pub mod hittable;
pub mod laws;
pub mod sphere;
pub mod surd;

pub use geometry::{Ray, Vec3};
pub use hittable::{HitRecord, Hittable};
pub use sphere::Sphere;
pub use surd::{Ratio, Surd, SurdValue, SurdVec3, SurdVec3Value};
