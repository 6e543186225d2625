//! A small ray-casting core: closed-form ray/sphere and ray/triangle
//! intersection tests, nearest-hit resolution over a scene of primitives,
//! and a debug shading policy (normal colouring on a hit, a vertical sky
//! gradient otherwise).
//!
//! All geometry is carried in fixed-point arithmetic: a scalar is an `i128`
//! holding `SCALE` (2^16) times its real value. Every function states
//! exactly, over mathematical integers, which fixed-point value it returns.

pub mod color;
pub mod hit;
pub mod interval;
pub mod list;
pub mod num;
pub mod ray;
pub mod sphere;
pub mod tri;
pub mod vec3;

pub use color::Color;
pub use hit::{Hit, Hittable};
pub use interval::Interval;
pub use list::{HittableList, Primitive};
pub use ray::Ray;
pub use sphere::Sphere;
pub use tri::Tri;
pub use vec3::Vec3;
