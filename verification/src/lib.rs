//! Bloksel: the world model of a block-based game engine, with verified
//! contracts.
pub mod voxel;
pub mod block;
pub mod engine;
pub mod frame;
pub mod render;
pub mod rendering;
pub mod assoc;
pub mod config;
pub mod number;
pub mod ui;
pub mod updater;
pub mod text;
pub mod terrain_generator;
pub mod world_engine;
pub mod player;
pub mod terrain;
pub mod physics;
pub mod chunk_renderer;
pub mod chunk_faces;
pub mod block_registry;
