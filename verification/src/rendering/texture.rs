//! Texture dimensions.
use vstd::prelude::*;

verus! {

/// The size of a texture, in pixels.
pub struct Texture {
    pub width: u32,
    pub height: u32,
}

impl Texture {
    pub fn new(width: u32, height: u32) -> (r: Self)
        ensures
            r.width == width,
            r.height == height,
    {
        Texture { width, height }
    }
}

} // verus!
