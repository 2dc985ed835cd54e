//! An offline path tracer core over fixed-point arithmetic.
//!
//! Geometry, material scattering, and light transport are computed on
//! integer scalars scaled by 2^16, so that every arithmetic step has an
//! exact mathematical description and the whole pipeline can be verified.

pub mod camera;
pub mod color;
pub mod fixed;
pub mod material;
pub mod primitive;
pub mod ray;
pub mod rt_util;
pub mod vector;

pub use fixed::SCALE;
