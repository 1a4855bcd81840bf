use bloksel::player::controls::{
    handle_key_input, handle_keyboard_input, toggle_flying, CollisionInfo, ControllerKey, ControllerKeys, PlayerInput,
    VirtualKey,
};
use bloksel::render::vulkan::{find_queue_families, QueueFamilies, QueueFamilyInfo};

#[test]
fn arrow_keys_and_letters_both_move() {
    let mut input = PlayerInput::new();
    handle_key_input(&mut input, VirtualKey::Up, true);
    assert!(input.forward);
    handle_key_input(&mut input, VirtualKey::W, false);
    assert!(!input.forward);
    handle_key_input(&mut input, VirtualKey::Space, true);
    handle_key_input(&mut input, VirtualKey::E, true);
    handle_key_input(&mut input, VirtualKey::Other, true);
    assert!(input.jump && input.fly_up && !input.fly_down && !input.sprint);
}

#[test]
fn flight_toggles() {
    let mut flying = false;
    assert!(toggle_flying(&mut flying));
    assert!(flying);
    assert!(!toggle_flying(&mut flying));
    assert!(!flying);
}

#[test]
fn collision_info_resets() {
    let mut info = CollisionInfo::new();
    info.collided = true;
    info.from_below = true;
    info.reset();
    assert_eq!(info, CollisionInfo { collided: false, from_below: false });
}

fn family(queue_count: u32, graphics: bool, compute: bool, transfer: bool) -> QueueFamilyInfo {
    QueueFamilyInfo { queue_count, graphics, compute, transfer }
}

#[test]
fn queue_families_prefer_dedicated_transfer() {
    let props = vec![
        family(1, true, true, true),
        family(2, false, false, true),
        family(0, true, false, false),
        family(1, false, true, false),
    ];
    let support = vec![false, true, true, false];
    let f = find_queue_families(&props, Some(&support));
    assert_eq!(f, QueueFamilies { graphics: Some(0), present: Some(1), transfer: Some(1), compute: Some(0) });
}

#[test]
fn queue_families_fall_back_to_graphics() {
    let props = vec![family(0, false, false, true), family(1, true, false, false)];
    let f = find_queue_families(&props, Some(&vec![false, false]));
    assert_eq!(f, QueueFamilies { graphics: Some(1), present: Some(1), transfer: Some(1), compute: Some(1) });
    let g = find_queue_families(&props, None);
    assert_eq!(g.present, None);
    assert_eq!(QueueFamilies::new(), QueueFamilies { graphics: None, present: None, transfer: None, compute: None });
}

#[test]
fn controller_keys_and_flight_toggle() {
    let mut keys = ControllerKeys::new();
    let mut fly = false;
    handle_keyboard_input(&mut keys, &mut fly, ControllerKey::KeyW, true);
    handle_keyboard_input(&mut keys, &mut fly, ControllerKey::ControlLeft, true);
    assert!(keys.forward && keys.crouch && !keys.backward);
    handle_keyboard_input(&mut keys, &mut fly, ControllerKey::KeyF, true);
    assert!(fly);
    handle_keyboard_input(&mut keys, &mut fly, ControllerKey::KeyF, false);
    assert!(fly);
    handle_keyboard_input(&mut keys, &mut fly, ControllerKey::KeyF, true);
    assert!(!fly);
    handle_keyboard_input(&mut keys, &mut fly, ControllerKey::KeyW, false);
    assert!(!keys.forward && keys.crouch);
    let before = keys;
    handle_keyboard_input(&mut keys, &mut fly, ControllerKey::Other, true);
    assert_eq!(keys, before);
    assert!(!keys.fly);
}
