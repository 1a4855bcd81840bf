//! The player's movement modes and key input.
pub mod input;
pub mod controls;
pub mod physics;
