//! Physical materials of blocks.
pub mod material;
