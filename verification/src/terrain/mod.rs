//! Chunk streaming around the player.
pub mod generator;
pub mod loader;
