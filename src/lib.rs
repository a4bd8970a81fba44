//! A chunk-based voxel world: a sparse grid of typed cells streamed around a
//! viewer, filled with terrain, meshed with face culling and picked by an exact
//! grid traversal. World-space quantities are fixed-point integers measured in
//! thousandths of a world unit.
use vstd::prelude::*;

pub mod voxel;
pub mod world;
pub mod terrain;
pub mod mesh;
pub mod raycast;
