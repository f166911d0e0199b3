//! A software ray tracer on fixed-point arithmetic: vector and matrix algebra,
//! ray-primitive intersection, shading and tiled rendering.

pub mod fixed;
pub mod math;
pub mod render;
pub mod scenes;

pub use crate::math::Vec3;
pub use crate::render::shapes::Camera;

use vstd::prelude::*;

verus! {

/// A rectangle in space: a diamond whose spanning vectors are meant to be
/// at right angles.
pub type Rectangle = crate::render::shapes::Diamond;

} // verus!
