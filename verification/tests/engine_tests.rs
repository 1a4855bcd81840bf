use bloksel::player::input::{InputState, Key};
use bloksel::player::physics::{MovePlan, PhysicsStep, Player, PlayerState};
use bloksel::terrain_generator::ChunkCoord;
use bloksel::world_engine::{QuadTree, WorldArea};

fn area(min: (i64, i64, i64), max: (i64, i64, i64)) -> WorldArea {
    WorldArea { min_x: min.0, min_y: min.1, min_z: min.2, max_x: max.0, max_y: max.1, max_z: max.2 }
}

#[test]
fn quad_tree_query_after_insert() {
    let mut tree = QuadTree::new(8);
    tree.insert(ChunkCoord::new(1, 0, 2));
    tree.insert(ChunkCoord::new(-3, 0, 4));
    let found = tree.query(area((0, 0, 0), (4, 4, 4)));
    assert_eq!(found, vec![ChunkCoord::new(1, 0, 2), ChunkCoord::new(-3, 0, 4)]);
}

#[test]
fn quad_tree_query_outside_bounds_is_empty() {
    let mut tree = QuadTree::new(8);
    tree.insert(ChunkCoord::new(1, 0, 2));
    assert!(tree.query(area((9, 0, 0), (20, 4, 4))).is_empty());
    assert!(tree.query(area((0, 257, 0), (4, 300, 4))).is_empty());
    assert_eq!(tree.query(area((8, 256, 8), (9, 300, 9))).len(), 1);
}

#[test]
fn world_areas_touching_at_a_corner_intersect() {
    let a = area((0, 0, 0), (1, 1, 1));
    assert!(a.intersects(&area((1, 1, 1), (2, 2, 2))));
    assert!(!a.intersects(&area((2, 0, 0), (3, 1, 1))));
}

#[test]
fn toggling_cycles_through_flight_modes() {
    let mut p = Player::new();
    p.load_state(PlayerState::Normal);
    let e = p.toggle_state();
    assert_eq!(p.state, PlayerState::Flying);
    assert!(e.stop_vertical && e.collision_enabled);
    let e = p.toggle_state();
    assert_eq!(p.state, PlayerState::Spectator);
    assert!(e.stop && e.reset_zoom && !e.collision_enabled);
    assert!(!p.collision_enabled);
    let e = p.toggle_state();
    assert_eq!(p.state, PlayerState::Normal);
    assert!(e.restore_safe_position && p.collision_enabled);
}

#[test]
fn ground_modes_toggle_back_to_walking() {
    let mut p = Player::new();
    p.load_state(PlayerState::Sprinting);
    p.toggle_state();
    assert_eq!(p.state, PlayerState::Walking);
    p.toggle_state();
    assert_eq!(p.state, PlayerState::Walking);
}

#[test]
fn keys_change_ground_modes() {
    let mut p = Player::new();
    assert!(p.handle_key(Key::Space, true));
    assert!(!p.handle_key(Key::Space, false));
    p.handle_key(Key::ShiftLeft, true);
    assert_eq!(p.save_state(), PlayerState::Sprinting);
    assert!(!p.handle_key(Key::Space, true));
    p.handle_key(Key::ControlLeft, true);
    assert_eq!(p.state, PlayerState::Sprinting);
    p.handle_key(Key::ShiftLeft, false);
    assert_eq!(p.state, PlayerState::Walking);
    p.handle_key(Key::ControlLeft, true);
    assert_eq!(p.state, PlayerState::Crouching);
    p.handle_key(Key::ControlLeft, false);
    assert_eq!(p.state, PlayerState::Walking);
}

#[test]
fn movement_plans_follow_mode_and_keys() {
    let mut input = InputState::new();
    input.handle_keyboard(Key::KeyW, true);
    input.handle_keyboard(Key::KeyD, true);
    let mut p = Player::new();
    assert_eq!(p.handle_movement(&input), MovePlan::Steer { speed_halves: 2, dx: 1, dy: 0, dz: -1 });
    p.load_state(PlayerState::Crouching);
    assert_eq!(p.handle_movement(&input), MovePlan::Steer { speed_halves: 1, dx: 1, dy: 0, dz: -1 });
    input.handle_keyboard(Key::KeyE, true);
    p.load_state(PlayerState::Flying);
    assert_eq!(p.handle_movement(&input), MovePlan::Steer { speed_halves: 4, dx: 1, dy: 1, dz: -1 });
    p.load_state(PlayerState::Normal);
    assert_eq!(p.handle_movement(&input), MovePlan::Coast { on_ground: false });
    p.load_state(PlayerState::Spectator);
    assert_eq!(p.handle_movement(&input), MovePlan::Keep);
}

#[test]
fn opposite_keys_cancel() {
    let mut input = InputState::new();
    input.handle_keyboard(Key::KeyA, true);
    input.handle_keyboard(Key::KeyD, true);
    let p = Player::new();
    assert_eq!(p.handle_movement(&input), MovePlan::Steer { speed_halves: 2, dx: 0, dy: 0, dz: 0 });
    input.handle_keyboard(Key::KeyA, false);
    assert!(!input.left && input.right);
    input.handle_keyboard(Key::Other, true);
    assert!(!input.forward);
}

#[test]
fn speeds_and_physics_by_mode() {
    let mut p = Player::new();
    let mut input = InputState::new();
    assert_eq!(p.calculate_current_speed(&input), 1);
    input.handle_keyboard(Key::ShiftLeft, true);
    assert_eq!(p.calculate_current_speed(&input), 2);
    p.load_state(PlayerState::Spectator);
    assert_eq!(p.calculate_current_speed(&input), 6);
    assert_eq!(p.apply_physics(), PhysicsStep::DampAll);
    assert!(p.handle_zoom());
    assert!(!p.update_position());
    p.load_state(PlayerState::Flying);
    assert_eq!(p.apply_physics(), PhysicsStep::DampVertical);
    p.load_state(PlayerState::Walking);
    assert_eq!(p.apply_physics(), PhysicsStep::Gravity);
    assert!(p.update_position());
}
