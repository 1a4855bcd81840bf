//! The player's movement modes: how they change on a toggle and on keys, and
//! what each mode does to the player's motion. The motion itself (positions,
//! velocities, the camera) is applied by the caller in floating point.
use vstd::prelude::*;
use crate::player::input::{InputState, Key};

verus! {

/// The movement modes.
#[derive(Debug, Clone, Copy, PartialEq, Eq, Structural)]
pub enum PlayerState {
    Normal,
    Flying,
    Spectator,
    Walking,
    Sprinting,
    Crouching,
}

/// The mode a toggle leads to: normal, flying and spectator in turn; the
/// ground modes go back to walking.
pub open spec fn toggled(s: PlayerState) -> PlayerState {
    match s {
        PlayerState::Normal => PlayerState::Flying,
        PlayerState::Flying => PlayerState::Spectator,
        PlayerState::Spectator => PlayerState::Normal,
        PlayerState::Walking => PlayerState::Walking,
        PlayerState::Sprinting => PlayerState::Walking,
        PlayerState::Crouching => PlayerState::Walking,
    }
}

/// What entering a mode by a toggle does to the motion.
#[derive(Debug, Clone, Copy, PartialEq, Eq, Structural)]
pub struct ToggleEffects {
    /// Whether collisions apply in the new mode.
    pub collision_enabled: bool,
    /// The velocity is set to zero.
    pub stop: bool,
    /// The vertical velocity is set to zero.
    pub stop_vertical: bool,
    /// The zoom goes back to 1.
    pub reset_zoom: bool,
    /// The player goes back to the last safe position.
    pub restore_safe_position: bool,
}

/// The effects of entering `s` by a toggle: spectators lose collisions, stop
/// and get the zoom back; flyers stop vertically; the other modes go back to
/// the last safe position.
pub open spec fn entry_effects(s: PlayerState) -> ToggleEffects {
    match s {
        PlayerState::Spectator => ToggleEffects {
            collision_enabled: false,
            stop: true,
            stop_vertical: false,
            reset_zoom: true,
            restore_safe_position: false,
        },
        PlayerState::Flying => ToggleEffects {
            collision_enabled: true,
            stop: false,
            stop_vertical: true,
            reset_zoom: false,
            restore_safe_position: false,
        },
        _ => ToggleEffects {
            collision_enabled: true,
            stop: false,
            stop_vertical: false,
            reset_zoom: false,
            restore_safe_position: true,
        },
    }
}

/// How a mode sets the velocity each frame.
#[derive(Debug, Clone, Copy, PartialEq, Eq, Structural)]
pub enum MovePlan {
    /// The velocity becomes the direction (`dx`, `dy`, `dz`, each -1, 0 or
    /// 1) times the base speed, the speed multiplier and `speed_halves` / 2.
    Steer { speed_halves: u8, dx: i8, dy: i8, dz: i8 },
    /// The horizontal velocity grows by its own acceleration and then meets
    /// friction, both stronger on the ground.
    Coast { on_ground: bool },
    /// The velocity stays as it is.
    Keep,
}

/// -1, 0 or 1: whether `plus` or `minus` is held, or neither or both.
pub open spec fn axis(plus: bool, minus: bool) -> int {
    (if plus { 1int } else { 0int }) - (if minus { 1int } else { 0int })
}

/// The move plan of a mode: walking at full speed, crouching at half,
/// sprinting at one and a half, flying at double and also up and down;
/// forward is -z and right is +x. Normal play coasts, spectators keep their
/// velocity.
pub open spec fn move_plan(s: PlayerState, on_ground: bool, input: InputState) -> MovePlan {
    let dx = axis(input.right, input.left) as i8;
    let dz = axis(input.backward, input.forward) as i8;
    match s {
        PlayerState::Walking => MovePlan::Steer { speed_halves: 2, dx, dy: 0, dz },
        PlayerState::Crouching => MovePlan::Steer { speed_halves: 1, dx, dy: 0, dz },
        PlayerState::Sprinting => MovePlan::Steer { speed_halves: 3, dx, dy: 0, dz },
        PlayerState::Flying => MovePlan::Steer {
            speed_halves: 4,
            dx,
            dy: axis(input.fly_up, input.crouch) as i8,
            dz,
        },
        PlayerState::Normal => MovePlan::Coast { on_ground },
        PlayerState::Spectator => MovePlan::Keep,
    }
}

/// The direction of a steering mode follows the keys alone, the same in
/// every such mode: forward alone gives z -1 and backward alone +1, right
/// alone gives x +1 and left alone -1, and neither or both of a pair give
/// 0. Walking, crouching and sprinting stay level; flying rises while the
/// jump key alone is held and sinks while crouch alone is held.
pub proof fn lemma_steering_direction(s: PlayerState, on_ground: bool, input: InputState)
    requires
        s == PlayerState::Walking || s == PlayerState::Crouching || s == PlayerState::Sprinting || s
            == PlayerState::Flying,
    ensures
        move_plan(s, on_ground, input) matches MovePlan::Steer { dx, dy, dz, .. } && dz == (if input.forward
            && !input.backward {
            -1i8
        } else if input.backward && !input.forward {
            1i8
        } else {
            0i8
        }) && dx == (if input.right && !input.left {
            1i8
        } else if input.left && !input.right {
            -1i8
        } else {
            0i8
        }) && dy == (if s != PlayerState::Flying {
            0i8
        } else if input.fly_up && !input.crouch {
            1i8
        } else if input.crouch && !input.fly_up {
            -1i8
        } else {
            0i8
        }),
{
}

/// Modes steer alike: walking, crouching, sprinting and flying give the
/// same horizontal direction for the same keys, at half, one and a half and
/// twice the walking speed for crouching, sprinting and flying.
pub proof fn lemma_modes_steer_alike(on_ground: bool, input: InputState)
    ensures
        ({
            let w = move_plan(PlayerState::Walking, on_ground, input);
            &&& move_plan(PlayerState::Crouching, on_ground, input) matches MovePlan::Steer { speed_halves: c, .. }
                && w matches MovePlan::Steer { speed_halves: ws, .. } && 2 * c == ws
            &&& move_plan(PlayerState::Sprinting, on_ground, input) matches MovePlan::Steer { speed_halves: sp, .. }
                && w matches MovePlan::Steer { speed_halves: ws, .. } && 2 * sp == 3 * ws
            &&& move_plan(PlayerState::Flying, on_ground, input) matches MovePlan::Steer { speed_halves: f, .. }
                && w matches MovePlan::Steer { speed_halves: ws, .. } && f == 2 * ws && ws == 2
        }),
        ({
            let w = move_plan(PlayerState::Walking, on_ground, input);
            &&& move_plan(PlayerState::Crouching, on_ground, input) matches MovePlan::Steer { dx, dz, .. }
                && w matches MovePlan::Steer { dx: wx, dz: wz, .. } && dx == wx && dz == wz
            &&& move_plan(PlayerState::Sprinting, on_ground, input) matches MovePlan::Steer { dx, dz, .. }
                && w matches MovePlan::Steer { dx: wx, dz: wz, .. } && dx == wx && dz == wz
            &&& move_plan(PlayerState::Flying, on_ground, input) matches MovePlan::Steer { dx, dz, .. }
                && w matches MovePlan::Steer { dx: wx, dz: wz, .. } && dx == wx && dz == wz
        }),
{
}

/// What the physics step does to the velocity in a mode.
#[derive(Debug, Clone, Copy, PartialEq, Eq, Structural)]
pub enum PhysicsStep {
    /// Gravity pulls the vertical velocity down, within the gravity's bounds.
    Gravity,
    /// The vertical velocity is damped.
    DampVertical,
    /// The whole velocity is damped.
    DampAll,
}

/// -1, 0 or 1 for two keys in opposition.
fn axis_of(plus: bool, minus: bool) -> (r: i8)
    ensures
        r == axis(plus, minus),
{
    if plus && !minus {
        1
    } else if minus && !plus {
        -1
    } else {
        0
    }
}

/// The non-floating part of a player: mode, ground contact, collisions.
#[derive(Debug, Clone, Copy, PartialEq, Eq, Structural)]
pub struct Player {
    pub state: PlayerState,
    pub on_ground: bool,
    pub collision_enabled: bool,
}

impl Player {
    /// A walking player in the air with collisions on.
    pub fn new() -> (r: Self)
        ensures
            r == (Player { state: PlayerState::Walking, on_ground: false, collision_enabled: true }),
    {
        Player { state: PlayerState::Walking, on_ground: false, collision_enabled: true }
    }

    /// Moves to the next mode (see `toggled`) and returns what entering it
    /// does to the motion.
    pub fn toggle_state(&mut self) -> (r: ToggleEffects)
        ensures
            final(self).state == toggled(old(self).state),
            r == entry_effects(toggled(old(self).state)),
            final(self).collision_enabled == r.collision_enabled,
            final(self).on_ground == old(self).on_ground,
    {
        self.state = match self.state {
            PlayerState::Normal => PlayerState::Flying,
            PlayerState::Flying => PlayerState::Spectator,
            PlayerState::Spectator => PlayerState::Normal,
            PlayerState::Walking => PlayerState::Walking,
            PlayerState::Sprinting => PlayerState::Walking,
            PlayerState::Crouching => PlayerState::Walking,
        };
        let effects = match self.state {
            PlayerState::Spectator => ToggleEffects {
                collision_enabled: false,
                stop: true,
                stop_vertical: false,
                reset_zoom: true,
                restore_safe_position: false,
            },
            PlayerState::Flying => ToggleEffects {
                collision_enabled: true,
                stop: false,
                stop_vertical: true,
                reset_zoom: false,
                restore_safe_position: false,
            },
            _ => ToggleEffects {
                collision_enabled: true,
                stop: false,
                stop_vertical: false,
                reset_zoom: false,
                restore_safe_position: true,
            },
        };
        self.collision_enabled = effects.collision_enabled;
        effects
    }

    /// Whether a jump starts: only a walking player jumps.
    pub fn jump(&self) -> (r: bool)
        ensures
            r == (self.state == PlayerState::Walking),
    {
        self.state == PlayerState::Walking
    }

    /// A walking player crouches.
    pub fn crouch(&mut self)
        ensures
            final(self).state == (if old(self).state == PlayerState::Walking {
                PlayerState::Crouching
            } else {
                old(self).state
            }),
            final(self).on_ground == old(self).on_ground,
            final(self).collision_enabled == old(self).collision_enabled,
    {
        if self.state == PlayerState::Walking {
            self.state = PlayerState::Crouching;
        }
    }

    /// A walking player sprints.
    pub fn sprint(&mut self)
        ensures
            final(self).state == (if old(self).state == PlayerState::Walking {
                PlayerState::Sprinting
            } else {
                old(self).state
            }),
            final(self).on_ground == old(self).on_ground,
            final(self).collision_enabled == old(self).collision_enabled,
    {
        if self.state == PlayerState::Walking {
            self.state = PlayerState::Sprinting;
        }
    }

    /// A crouching player stands up and walks.
    pub fn stand(&mut self)
        ensures
            final(self).state == (if old(self).state == PlayerState::Crouching {
                PlayerState::Walking
            } else {
                old(self).state
            }),
            final(self).on_ground == old(self).on_ground,
            final(self).collision_enabled == old(self).collision_enabled,
    {
        if self.state == PlayerState::Crouching {
            self.state = PlayerState::Walking;
        }
    }

    /// A sprinting player walks.
    pub fn walk(&mut self)
        ensures
            final(self).state == (if old(self).state == PlayerState::Sprinting {
                PlayerState::Walking
            } else {
                old(self).state
            }),
            final(self).on_ground == old(self).on_ground,
            final(self).collision_enabled == old(self).collision_enabled,
    {
        if self.state == PlayerState::Sprinting {
            self.state = PlayerState::Walking;
        }
    }

    /// Reacts to a key: Space jumps when pressed, left Shift sprints when
    /// pressed and walks when released, left Control crouches when pressed
    /// and stands when released. Returns whether a jump starts.
    pub fn handle_key(&mut self, key: Key, pressed: bool) -> (r: bool)
        ensures
            r == (key == Key::Space && pressed && old(self).state == PlayerState::Walking),
            final(self).state == (match key {
                Key::ShiftLeft => if pressed {
                    if old(self).state == PlayerState::Walking {
                        PlayerState::Sprinting
                    } else {
                        old(self).state
                    }
                } else {
                    if old(self).state == PlayerState::Sprinting {
                        PlayerState::Walking
                    } else {
                        old(self).state
                    }
                },
                Key::ControlLeft => if pressed {
                    if old(self).state == PlayerState::Walking {
                        PlayerState::Crouching
                    } else {
                        old(self).state
                    }
                } else {
                    if old(self).state == PlayerState::Crouching {
                        PlayerState::Walking
                    } else {
                        old(self).state
                    }
                },
                _ => old(self).state,
            }),
            final(self).on_ground == old(self).on_ground,
            final(self).collision_enabled == old(self).collision_enabled,
    {
        match key {
            Key::Space => pressed && self.jump(),
            Key::ShiftLeft => {
                if pressed {
                    self.sprint();
                } else {
                    self.walk();
                }
                false
            },
            Key::ControlLeft => {
                if pressed {
                    self.crouch();
                } else {
                    self.stand();
                }
                false
            },
            _ => false,
        }
    }

    /// The current mode.
    pub fn save_state(&self) -> (r: PlayerState)
        ensures
            r == self.state,
    {
        self.state
    }

    /// Sets the mode.
    pub fn load_state(&mut self, state: PlayerState)
        ensures
            final(self).state == state,
            final(self).on_ground == old(self).on_ground,
            final(self).collision_enabled == old(self).collision_enabled,
    {
        self.state = state;
    }

    /// How this frame sets the velocity (see `move_plan`).
    pub fn handle_movement(&self, input: &InputState) -> (r: MovePlan)
        ensures
            r == move_plan(self.state, self.on_ground, *input),
    {
        let dx = axis_of(input.right, input.left);
        let dz = axis_of(input.backward, input.forward);
        match self.state {
            PlayerState::Walking => MovePlan::Steer { speed_halves: 2, dx, dy: 0, dz },
            PlayerState::Crouching => MovePlan::Steer { speed_halves: 1, dx, dy: 0, dz },
            PlayerState::Sprinting => MovePlan::Steer { speed_halves: 3, dx, dy: 0, dz },
            PlayerState::Flying => MovePlan::Steer {
                speed_halves: 4,
                dx,
                dy: axis_of(input.fly_up, input.crouch),
                dz,
            },
            PlayerState::Normal => MovePlan::Coast { on_ground: self.on_ground },
            PlayerState::Spectator => MovePlan::Keep,
        }
    }

    /// The speed of the mode as a multiple of the base speed: three for
    /// spectators, two for sprinters, one otherwise; doubled while the
    /// sprint key is held.
    pub fn calculate_current_speed(&self, input: &InputState) -> (r: u8)
        ensures
            r == (match self.state {
                PlayerState::Spectator => 3int,
                PlayerState::Sprinting => 2int,
                _ => 1int,
            }) * (if input.sprint { 2int } else { 1int }),
    {
        let base: u8 = match self.state {
            PlayerState::Spectator => 3,
            PlayerState::Sprinting => 2,
            _ => 1,
        };
        if input.sprint {
            base * 2
        } else {
            base
        }
    }

    /// What the physics step does in the current mode: flyers damp their
    /// vertical velocity, spectators all of it, the others fall.
    pub fn apply_physics(&self) -> (r: PhysicsStep)
        ensures
            r == (match self.state {
                PlayerState::Flying => PhysicsStep::DampVertical,
                PlayerState::Spectator => PhysicsStep::DampAll,
                _ => PhysicsStep::Gravity,
            }),
    {
        match self.state {
            PlayerState::Flying => PhysicsStep::DampVertical,
            PlayerState::Spectator => PhysicsStep::DampAll,
            _ => PhysicsStep::Gravity,
        }
    }

    /// Whether the move this frame checks collisions: with collisions on and
    /// outside spectator mode.
    pub fn update_position(&self) -> (r: bool)
        ensures
            r == (self.collision_enabled && self.state != PlayerState::Spectator),
    {
        self.collision_enabled && self.state != PlayerState::Spectator
    }

    /// Whether the mouse wheel zooms: in spectator mode only.
    pub fn handle_zoom(&self) -> (r: bool)
        ensures
            r == (self.state == PlayerState::Spectator),
    {
        self.state == PlayerState::Spectator
    }
}

/// Three toggles bring normal, flying and spectator modes back to where
/// they started; a ground mode reaches walking on the first toggle and stays
/// there.
pub proof fn lemma_toggle_cycle(s: PlayerState)
    ensures
        (s == PlayerState::Normal || s == PlayerState::Flying || s == PlayerState::Spectator) ==> toggled(
            toggled(toggled(s)),
        ) == s,
        (s == PlayerState::Walking || s == PlayerState::Sprinting || s == PlayerState::Crouching) ==> toggled(s)
            == PlayerState::Walking && toggled(toggled(s)) == PlayerState::Walking,
{
}

/// Entering any mode by a toggle enables collisions except for spectators.
pub proof fn lemma_toggle_collisions(s: PlayerState)
    ensures
        entry_effects(toggled(s)).collision_enabled <==> toggled(s) != PlayerState::Spectator,
{
}

} // verus!
