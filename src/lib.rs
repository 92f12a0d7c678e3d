//! Core logic of a small top-down game: a generated tile atlas, a grid of
//! placed tiles, and the camera-follow steps that run every fixed tick.

pub mod camera;
pub mod tilemap;
pub mod tileset;
