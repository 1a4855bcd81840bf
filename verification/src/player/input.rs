//! The movement keys held down.
use vstd::prelude::*;

verus! {

/// The keys the game reads.
#[derive(Debug, Clone, Copy, PartialEq, Eq, Structural)]
pub enum Key {
    KeyW,
    KeyS,
    KeyA,
    KeyD,
    ShiftLeft,
    KeyE,
    KeyQ,
    ControlLeft,
    Space,
    Other,
}

/// Which movement keys are held.
#[derive(Debug, Clone, Copy, PartialEq, Eq, Structural, Default)]
pub struct InputState {
    pub forward: bool,
    pub backward: bool,
    pub left: bool,
    pub right: bool,
    pub sprint: bool,
    pub fly_up: bool,
    pub fly_down: bool,
    pub crouch: bool,
}

/// The keys after `key` went down (`pressed`) or up: W forward, S backward,
/// A left, D right, left Shift sprint, E up, Q down, left Control crouch;
/// other keys change nothing.
pub open spec fn after_key(s: InputState, key: Key, pressed: bool) -> InputState {
    match key {
        Key::KeyW => InputState { forward: pressed, ..s },
        Key::KeyS => InputState { backward: pressed, ..s },
        Key::KeyA => InputState { left: pressed, ..s },
        Key::KeyD => InputState { right: pressed, ..s },
        Key::ShiftLeft => InputState { sprint: pressed, ..s },
        Key::KeyE => InputState { fly_up: pressed, ..s },
        Key::KeyQ => InputState { fly_down: pressed, ..s },
        Key::ControlLeft => InputState { crouch: pressed, ..s },
        _ => s,
    }
}

impl InputState {
    /// No key held.
    pub fn new() -> (r: Self)
        ensures
            r == (InputState {
                forward: false,
                backward: false,
                left: false,
                right: false,
                sprint: false,
                fly_up: false,
                fly_down: false,
                crouch: false,
            }),
    {
        InputState {
            forward: false,
            backward: false,
            left: false,
            right: false,
            sprint: false,
            fly_up: false,
            fly_down: false,
            crouch: false,
        }
    }

    /// Records a key going down or up.
    pub fn handle_keyboard(&mut self, key: Key, pressed: bool)
        ensures
            *final(self) == after_key(*old(self), key, pressed),
    {
        match key {
            Key::KeyW => self.forward = pressed,
            Key::KeyS => self.backward = pressed,
            Key::KeyA => self.left = pressed,
            Key::KeyD => self.right = pressed,
            Key::ShiftLeft => self.sprint = pressed,
            Key::KeyE => self.fly_up = pressed,
            Key::KeyQ => self.fly_down = pressed,
            Key::ControlLeft => self.crouch = pressed,
            _ => {},
        }
    }
}

/// Pressing and releasing a key leaves the held keys as they were, when the
/// key was not held before.
pub proof fn lemma_press_release(s: InputState, key: Key)
    requires
        after_key(s, key, false) == s,
    ensures
        after_key(after_key(s, key, true), key, false) == s,
{
}

} // verus!
