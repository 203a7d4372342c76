//! A small ray-casting library: analytic ray/sphere intersection, nearest-hit
//! resolution over a scene of primitives, camera-to-ray interpolation, and a
//! column-partitioned frame buffer.
//!
//! All geometry is carried in fixed-point integers: a coordinate of `n` stands
//! for the real value `n / SCALE`.  Every operation is specified exactly over
//! mathematical integers, including the rounding that fixed-point division
//! introduces, so callers can reason about results pixel for pixel.

pub mod math;
pub mod point;
pub mod ray;
pub mod renderer;
pub mod shape;
pub mod world;
