//! A verified geometric ray-casting core: fixed-point vector algebra, rays,
//! spheres, an aggregate scene that reports the nearest intersection, and a
//! shading function that turns a hit or a miss into a color.
//!
//! Every scalar is a fixed-point value: an `i64` holding `raw / SCALE` with
//! `SCALE = 65536`. All arithmetic is exact integer arithmetic, rounded
//! toward zero where a rescale or a division is needed, and every contract
//! states the computed value exactly.

pub mod fixed;
pub mod vec3;
pub mod color;
pub mod ray;
pub mod hit;
pub mod sphere;
pub mod scene;
pub mod shade;

pub use fixed::SCALE;
pub use fixed::COORD_MAX;
pub use fixed::T_MAX;
