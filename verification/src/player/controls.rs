//! The controls of the walking and flying player: keys held, flight, and
//! the record of a collision check.
use vstd::prelude::*;

verus! {

/// The keys this player reads.
#[derive(Debug, Clone, Copy, PartialEq, Eq, Structural)]
pub enum VirtualKey {
    W,
    Up,
    S,
    Down,
    A,
    Left,
    D,
    Right,
    Space,
    LShift,
    Q,
    E,
    Other,
}

/// Which movement keys are held.
#[derive(Debug, Clone, Copy, PartialEq, Eq, Structural)]
pub struct PlayerInput {
    pub forward: bool,
    pub backward: bool,
    pub left: bool,
    pub right: bool,
    pub jump: bool,
    pub sprint: bool,
    pub fly_up: bool,
    pub fly_down: bool,
}

impl PlayerInput {
    /// No key held.
    pub fn new() -> (r: Self)
        ensures
            r == (PlayerInput {
                forward: false,
                backward: false,
                left: false,
                right: false,
                jump: false,
                sprint: false,
                fly_up: false,
                fly_down: false,
            }),
    {
        PlayerInput {
            forward: false,
            backward: false,
            left: false,
            right: false,
            jump: false,
            sprint: false,
            fly_up: false,
            fly_down: false,
        }
    }
}

/// The held keys after `key` went down (`pressed`) or up: W or Up forward,
/// S or Down backward, A or Left left, D or Right right, Space jump, left
/// Shift sprint, Q down, E up.
pub open spec fn after_input(s: PlayerInput, key: VirtualKey, pressed: bool) -> PlayerInput {
    match key {
        VirtualKey::W | VirtualKey::Up => PlayerInput { forward: pressed, ..s },
        VirtualKey::S | VirtualKey::Down => PlayerInput { backward: pressed, ..s },
        VirtualKey::A | VirtualKey::Left => PlayerInput { left: pressed, ..s },
        VirtualKey::D | VirtualKey::Right => PlayerInput { right: pressed, ..s },
        VirtualKey::Space => PlayerInput { jump: pressed, ..s },
        VirtualKey::LShift => PlayerInput { sprint: pressed, ..s },
        VirtualKey::Q => PlayerInput { fly_down: pressed, ..s },
        VirtualKey::E => PlayerInput { fly_up: pressed, ..s },
        VirtualKey::Other => s,
    }
}

/// Records a key going down or up.
pub fn handle_key_input(input: &mut PlayerInput, key: VirtualKey, pressed: bool)
    ensures
        *final(input) == after_input(*old(input), key, pressed),
{
    match key {
        VirtualKey::W | VirtualKey::Up => input.forward = pressed,
        VirtualKey::S | VirtualKey::Down => input.backward = pressed,
        VirtualKey::A | VirtualKey::Left => input.left = pressed,
        VirtualKey::D | VirtualKey::Right => input.right = pressed,
        VirtualKey::Space => input.jump = pressed,
        VirtualKey::LShift => input.sprint = pressed,
        VirtualKey::Q => input.fly_down = pressed,
        VirtualKey::E => input.fly_up = pressed,
        VirtualKey::Other => {},
    }
}

/// Switches flight on or off; returns whether the vertical velocity stops
/// (on entering flight).
pub fn toggle_flying(flying: &mut bool) -> (stop_vertical: bool)
    ensures
        *final(flying) == !*old(flying),
        stop_vertical == *final(flying),
{
    *flying = !*flying;
    *flying
}

/// What a collision check found: a collision, and whether it came from
/// below.
#[derive(Debug, Clone, Copy, PartialEq, Eq, Structural)]
pub struct CollisionInfo {
    pub collided: bool,
    pub from_below: bool,
}

impl CollisionInfo {
    /// No collision found yet.
    pub fn new() -> (r: Self)
        ensures
            r == (CollisionInfo { collided: false, from_below: false }),
    {
        CollisionInfo { collided: false, from_below: false }
    }

    /// Forgets what was found.
    pub fn reset(&mut self)
        ensures
            *final(self) == (CollisionInfo { collided: false, from_below: false }),
    {
        self.collided = false;
        self.from_below = false;
    }
}

/// The keys the first-person controller reads.
#[derive(Debug, Clone, Copy, PartialEq, Eq, Structural)]
pub enum ControllerKey {
    KeyW,
    KeyS,
    KeyA,
    KeyD,
    Space,
    ShiftLeft,
    ControlLeft,
    KeyF,
    Other,
}

/// The controller's held keys; `fly` is not set from the keyboard.
#[derive(Debug, Clone, Copy, PartialEq, Eq, Structural)]
pub struct ControllerKeys {
    pub forward: bool,
    pub backward: bool,
    pub left: bool,
    pub right: bool,
    pub jump: bool,
    pub crouch: bool,
    pub sprint: bool,
    pub fly: bool,
}

impl ControllerKeys {
    /// No key held.
    pub fn new() -> (r: Self)
        ensures
            r == (ControllerKeys {
                forward: false,
                backward: false,
                left: false,
                right: false,
                jump: false,
                crouch: false,
                sprint: false,
                fly: false,
            }),
    {
        ControllerKeys {
            forward: false,
            backward: false,
            left: false,
            right: false,
            jump: false,
            crouch: false,
            sprint: false,
            fly: false,
        }
    }
}

/// The held keys after `key` went down (`pressed`) or up: W forward, S
/// backward, A left, D right, Space jump, left Shift sprint, left Control
/// crouch.
pub open spec fn after_controller_key(s: ControllerKeys, key: ControllerKey, pressed: bool) -> ControllerKeys {
    match key {
        ControllerKey::KeyW => ControllerKeys { forward: pressed, ..s },
        ControllerKey::KeyS => ControllerKeys { backward: pressed, ..s },
        ControllerKey::KeyA => ControllerKeys { left: pressed, ..s },
        ControllerKey::KeyD => ControllerKeys { right: pressed, ..s },
        ControllerKey::Space => ControllerKeys { jump: pressed, ..s },
        ControllerKey::ShiftLeft => ControllerKeys { sprint: pressed, ..s },
        ControllerKey::ControlLeft => ControllerKeys { crouch: pressed, ..s },
        _ => s,
    }
}

/// The flight mode after `key` went down (`pressed`) or up: pressing F
/// switches it, nothing else changes it.
pub open spec fn fly_after(fly_mode: bool, key: ControllerKey, pressed: bool) -> bool {
    if key == ControllerKey::KeyF && pressed {
        !fly_mode
    } else {
        fly_mode
    }
}

/// Records a key going down or up on the controller; pressing F switches
/// flight mode, releasing it does nothing.
pub fn handle_keyboard_input(keys: &mut ControllerKeys, fly_mode: &mut bool, key: ControllerKey, pressed: bool)
    ensures
        *final(keys) == after_controller_key(*old(keys), key, pressed),
        *final(fly_mode) == fly_after(*old(fly_mode), key, pressed),
{
    match key {
        ControllerKey::KeyW => keys.forward = pressed,
        ControllerKey::KeyS => keys.backward = pressed,
        ControllerKey::KeyA => keys.left = pressed,
        ControllerKey::KeyD => keys.right = pressed,
        ControllerKey::Space => keys.jump = pressed,
        ControllerKey::ShiftLeft => keys.sprint = pressed,
        ControllerKey::ControlLeft => keys.crouch = pressed,
        ControllerKey::KeyF => {
            if pressed {
                *fly_mode = !*fly_mode;
            }
        },
        ControllerKey::Other => {},
    }
}

/// Pressing a key and then releasing it leaves the keys as releasing it
/// alone would; pressing F twice restores the flight mode.
pub proof fn lemma_controller_press_release(s: ControllerKeys, key: ControllerKey, fly_mode: bool)
    ensures
        after_controller_key(after_controller_key(s, key, true), key, false) == after_controller_key(s, key, false),
        fly_after(fly_after(fly_mode, ControllerKey::KeyF, true), ControllerKey::KeyF, true) == fly_mode,
{
}

} // verus!
