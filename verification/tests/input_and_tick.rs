use hitscan::actions::ActionSet;
use hitscan::configs::{
    get_default_input_map, load_input_map, ButtonAction, InputMap, RawInputContainer, KEY_A,
    KEY_D, KEY_LCONTROL, KEY_S, KEY_SPACE, KEY_W, MOUSE_LEFT, MOUSE_RIGHT,
};
use hitscan::mapper::handle_raw_input;
use hitscan::movement::handle_movement;
use hitscan::physics::{AA_Hitbox, Vec3i};
use hitscan::tick::run_tick;
use hitscan::world::World;

fn vec3(x: i32, y: i32, z: i32) -> Vec3i {
    Vec3i { x, y, z }
}

fn key(code: u32) -> RawInputContainer {
    RawInputContainer::KeyCode(code)
}

fn mouse(code: u32) -> RawInputContainer {
    RawInputContainer::MouseButton(code)
}

#[test]
fn take_once_semantics() {
    let mut actions = ActionSet::new();
    actions.insert(ButtonAction::Jump);
    assert!(actions.take(ButtonAction::Jump), "the first consumer sees the action");
    assert!(!actions.take(ButtonAction::Jump), "a second consumer in the same tick does not");
    assert!(!actions.contains(ButtonAction::Jump));
}

#[test]
fn mapper_reinserts_held_input_next_tick() {
    let cfg = get_default_input_map();
    let pressed = vec![key(KEY_W)];
    let mut actions = ActionSet::new();

    handle_raw_input(&cfg, &pressed, &mut actions);
    assert!(actions.take(ButtonAction::MoveForward));
    assert!(!actions.contains(ButtonAction::MoveForward));

    // Next tick, the same held input re-populates the set.
    handle_raw_input(&cfg, &pressed, &mut actions);
    assert!(actions.contains(ButtonAction::MoveForward));
}

#[test]
fn mapper_coalesces_inputs_and_keeps_existing() {
    // Two raw inputs bound to the same action coalesce into a single
    // membership; the mapper never removes what is already signaled.
    let mut cfg = InputMap::new();
    cfg.insert_binding(key(1), ButtonAction::Fire);
    cfg.insert_binding(mouse(9), ButtonAction::Fire);
    let mut actions = ActionSet::new();
    actions.insert(ButtonAction::Crouch);

    handle_raw_input(&cfg, &vec![key(1), mouse(9)], &mut actions);
    assert!(actions.contains(ButtonAction::Crouch), "existing actions stay");
    assert!(actions.take(ButtonAction::Fire));
    assert!(!actions.take(ButtonAction::Fire), "one membership, not two");
}

#[test]
fn unbound_inputs_are_inert() {
    let cfg = get_default_input_map();
    let mut actions = ActionSet::new();
    handle_raw_input(&cfg, &vec![key(12345)], &mut actions);
    assert_eq!(actions, ActionSet::new());
}

#[test]
fn config_fallback_yields_default_bindings() {
    // A missing or corrupt configuration arrives here as `None`: loading
    // falls back to the built-in bindings and never fails.
    let m = load_input_map(None);
    assert_eq!(m.lookup(key(KEY_W)), Some(ButtonAction::MoveForward));
    assert_eq!(m.lookup(key(KEY_A)), Some(ButtonAction::MoveLeft));
    assert_eq!(m.lookup(key(KEY_S)), Some(ButtonAction::MoveBackward));
    assert_eq!(m.lookup(key(KEY_D)), Some(ButtonAction::MoveRight));
    assert_eq!(m.lookup(key(KEY_SPACE)), Some(ButtonAction::Jump));
    assert_eq!(m.lookup(key(KEY_LCONTROL)), Some(ButtonAction::Crouch));
    assert_eq!(m.lookup(mouse(MOUSE_LEFT)), Some(ButtonAction::Fire));
    assert_eq!(m.lookup(mouse(MOUSE_RIGHT)), Some(ButtonAction::SecondaryFire));
    assert_eq!(m.lookup(key(999)), None);
}

#[test]
fn config_parsed_map_is_used_as_is() {
    let mut custom = InputMap::new();
    custom.insert_binding(key(7), ButtonAction::Fire);
    let m = load_input_map(Some(custom));
    assert_eq!(m.lookup(key(7)), Some(ButtonAction::Fire));
    assert_eq!(m.lookup(key(KEY_W)), None, "the parsed map replaces the defaults");
}

#[test]
fn rebinding_replaces_earlier_binding() {
    let mut m = InputMap::new();
    m.insert_binding(key(7), ButtonAction::Jump);
    m.insert_binding(key(7), ButtonAction::Fire);
    assert_eq!(m.lookup(key(7)), Some(ButtonAction::Fire));
}

#[test]
fn movement_sums_contributions_and_pins_height() {
    let mut actions = ActionSet::new();
    actions.insert(ButtonAction::MoveForward);
    actions.insert(ButtonAction::MoveRight);
    actions.insert(ButtonAction::Fire);

    // Forward along +x, left along +z; moving right subtracts the left
    // vector.
    let new_pos = handle_movement(&mut actions, vec3(0, 0, 0), vec3(2, 0, 0), vec3(0, 0, 2), 5);
    assert_eq!(new_pos, vec3(2, 5, -2));
    assert!(!actions.contains(ButtonAction::MoveForward), "directional actions are consumed");
    assert!(!actions.contains(ButtonAction::MoveRight));
    assert!(actions.contains(ButtonAction::Fire), "other actions are untouched");
}

#[test]
fn movement_opposites_cancel() {
    let mut actions = ActionSet::new();
    actions.insert(ButtonAction::MoveForward);
    actions.insert(ButtonAction::MoveBackward);
    let new_pos = handle_movement(&mut actions, vec3(3, 9, 4), vec3(2, 0, 1), vec3(0, 0, 2), 9);
    assert_eq!(new_pos, vec3(3, 9, 4));
}

#[test]
fn full_tick_moves_fires_and_resolves() {
    let cfg = get_default_input_map();
    let mut actions = ActionSet::new();
    let mut w = World::new();
    let frail = w.spawn_target(
        AA_Hitbox { origin: vec3(10, -1, -1), extent: vec3(2, 2, 2) },
        1,
    );
    let sturdy = w.spawn_target(
        AA_Hitbox { origin: vec3(20, -1, -1), extent: vec3(2, 2, 2) },
        5,
    );

    // Hold W and the left mouse button: step forward, then fire along the
    // look direction from the new viewpoint.
    let pressed = vec![key(KEY_W), mouse(MOUSE_LEFT)];
    let new_pos = run_tick(
        &cfg,
        &pressed,
        &mut actions,
        &mut w,
        vec3(0, 0, 0),
        vec3(1, 0, 0),
        vec3(0, 0, 1),
        0,
    );
    assert_eq!(new_pos, vec3(1, 0, 0));
    assert_eq!(w.rays.len(), 0, "the fired ray is consumed within the tick");
    assert!(w.targets.iter().all(|t| t.id != frail), "the near target is destroyed");
    assert_eq!(w.targets.len(), 1);
    assert_eq!(w.targets[0].id, sturdy);
    assert_eq!(w.targets[0].health, 5, "only the nearest target is struck");
    assert!(!actions.contains(ButtonAction::Fire));
    assert!(!actions.contains(ButtonAction::MoveForward));
}

#[test]
fn tick_without_fire_resolves_nothing() {
    let cfg = get_default_input_map();
    let mut actions = ActionSet::new();
    let mut w = World::new();
    let id = w.spawn_target(AA_Hitbox { origin: vec3(10, -1, -1), extent: vec3(2, 2, 2) }, 3);

    let pressed = vec![key(KEY_S)];
    let new_pos = run_tick(
        &cfg,
        &pressed,
        &mut actions,
        &mut w,
        vec3(0, 0, 0),
        vec3(1, 0, 0),
        vec3(0, 0, 1),
        0,
    );
    assert_eq!(new_pos, vec3(-1, 0, 0));
    assert_eq!(w.targets.len(), 1);
    assert_eq!(w.targets[0].id, id);
    assert_eq!(w.targets[0].health, 3);
}
