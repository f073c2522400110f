//! A small path tracer over exact fixed-point arithmetic.
//!
//! The renderer casts rays from a camera through every pixel of an image,
//! intersects them with a scene of spheres, and estimates the light carried
//! back along each ray with a bounded recursive Monte Carlo estimator.
//! All numeric work uses the fixed-point scalars of [`fixed`], so every
//! computation is specified and verified exactly.

pub mod fixed;
pub mod image;
pub mod intersect;
pub mod radiance;
pub mod sampling;
pub mod scene;
pub mod vec3;

use vstd::prelude::*;

verus! {

} // verus!
