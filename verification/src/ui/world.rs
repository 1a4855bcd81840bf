//! The settings of a world to create, as the world screen edits them.
use vstd::prelude::*;

verus! {

/// The settings of a world to create.
pub struct CreateWorldState {
    name: String,
    seed: String,
    world_type: WorldType,
    difficulty: Difficulty,
    bonus_chest: bool,
    generate_structures: bool,
}

/// World generation presets.
#[derive(PartialEq, Eq, Structural)]
pub enum WorldType {
    Default,
    Flat,
    Amplified,
    LargeBiomes,
}

/// Difficulty levels.
#[derive(PartialEq, Eq, Structural)]
pub enum Difficulty {
    Peaceful,
    Easy,
    Normal,
    Hard,
}

} // verus!
