//! The renderer's errors and textures.
pub mod pipeline;
pub mod texture;
pub mod vulkan;
