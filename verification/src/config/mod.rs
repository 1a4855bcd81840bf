//! Engine configuration.
pub mod chunksys;
pub mod game;
pub mod language;
