//! A texture uploaded to the graphics device: its handle and size.
use vstd::prelude::*;

verus! {

/// A texture on the graphics device: its handle and its size in pixels.
pub struct Texture {
    id: u32,
    width: u32,
    height: u32,
}

impl Texture {
    /// A texture with the given device handle and size.
    pub fn from_parts(id: u32, width: u32, height: u32) -> (r: Self)
        ensures
            r.handle() == id,
            r.size() == (width, height),
    {
        Texture { id, width, height }
    }

    pub closed spec fn handle(&self) -> u32 {
        self.id
    }

    pub closed spec fn size(&self) -> (u32, u32) {
        (self.width, self.height)
    }

    /// The device handle.
    pub fn id(&self) -> (r: u32)
        ensures
            r == self.handle(),
    {
        self.id
    }
}

} // verus!
