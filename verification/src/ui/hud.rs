//! The heads-up display's switches.
use vstd::prelude::*;

verus! {

/// Which parts of the heads-up display are shown.
pub struct HUD {
    pub show_fps: bool,
    pub show_debug: bool,
    pub show_inventory: bool,
}

impl HUD {
    /// Frame rate shown; debug information and inventory hidden.
    pub fn new() -> (r: Self)
        ensures
            r.show_fps,
            !r.show_debug,
            !r.show_inventory,
    {
        HUD { show_fps: true, show_debug: false, show_inventory: false }
    }
}

} // verus!
