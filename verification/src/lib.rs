//! A small path-tracing renderer over fixed-point arithmetic.
//!
//! Scene-space quantities (coordinates, colors, ray parameters) are stored as
//! 64-bit integers scaled by `fixed::SCALE`, so that every arithmetic step of
//! the renderer has an exact mathematical meaning that the contracts can state.

pub mod fixed;
pub mod vec3;
pub mod ray;
pub mod camera;
pub mod geometry;
pub mod materials;
pub mod render;
pub mod color;
pub mod sampler;
