//! A small stochastic ray tracer over fixed-point arithmetic.
//!
//! Geometry, colors and ray parameters are all carried by the fixed-point
//! scalar [`fixed::Fx`], so every stage of the pipeline — sphere
//! intersection, nearest-hit resolution, material scattering, camera ray
//! generation and gamma-corrected accumulation — is specified and verified
//! over exact integer arithmetic.

pub mod body;
pub mod camera;
pub mod fixed;
pub mod image;
pub mod linalg;
pub mod material;
pub mod ray;
pub mod renderer;
pub mod rng;
