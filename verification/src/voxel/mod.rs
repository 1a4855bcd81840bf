//! Core voxel systems: blocks, chunks, the world and the block registry.
pub mod block;
pub mod world;
pub mod registry;
