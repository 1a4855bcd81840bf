//! User interface state and text.
pub mod draw_batch;
pub mod hud;
pub mod menu;
pub mod translations;
pub mod world;
