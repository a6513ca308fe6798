//! Exact 2-D line-of-sight geometry: wall segments, rays, and the part of a
//! ray that is visible before the nearest wall.
//!
//! A [`scene::Scene`] holds walls. A [`line::Line`] is a wall or a ray; a ray
//! cast in a scene is cut at the nearest wall that it meets. All coordinates
//! are exact rational numbers ([`scalar::Scalar`]), so that a point found on
//! two segments lies on both, and a ray cut at a wall stays on its line.
//!
//! [`model`] says what the operations compute, as mathematics over real
//! numbers; [`laws`] and [`nearest`] prove what follows for every ray and
//! every scene. [`natural`], [`integer`] and [`scalar`] are the numbers.
pub mod integer;
pub mod laws;
pub mod line;
pub mod model;
pub mod natural;
pub mod nearest;
pub mod point;
pub mod scalar;
pub mod scene;
