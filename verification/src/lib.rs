//! A grid ray-casting engine for a first-person 2.5D renderer.
//!
//! The engine walks a ray across a rectangular occupancy grid one grid-line
//! crossing at a time (DDA stepping), finds the nearest wall the ray hits on
//! each of the two grid-line families, and turns the nearer hit into a
//! per-column wall height, hit orientation, and texture-sampling offset.
//!
//! All geometry is carried in integer world units.  The trigonometric
//! classification of a ray (facing direction, run per cell of rise, rise per
//! cell of run) is summarised in a [`ray::RayDir`] value that the caller
//! derives from the ray angle; everything downstream of that value is exact
//! integer arithmetic.

pub mod cast;
pub mod grid;
pub mod nums;
pub mod overlay;
pub mod project;
pub mod ray;
