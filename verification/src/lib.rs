//! Voxel chunk meshing core: coordinate systems, chunk storage, a world map
//! with persistent render handles, face-visibility analysis, and emission of
//! quad geometry for every surface-exposed block face.
//!
//! All geometry is expressed over integers: vertex positions are measured in
//! half-block units (every corner of a unit cube centred on a block falls on
//! a half-unit lattice point), so the whole emission path is exact.

pub mod block;
pub mod chunk;
pub mod color;
pub mod coords;
pub mod game_map;
pub mod loader;
pub mod mesher;
pub mod model;
