//! Rendering resources described by plain values.
pub mod texture;
