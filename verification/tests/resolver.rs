use hitscan::actions::ActionSet;
use hitscan::configs::ButtonAction;
use hitscan::physics::{AA_Hitbox, Hitray, Ray3, Vec3i};
use hitscan::world::{handle_fire, hitline_system, resolve_ray, should_handle_fire, World};

fn vec3(x: i32, y: i32, z: i32) -> Vec3i {
    Vec3i { x, y, z }
}

fn box_at(x: i32) -> AA_Hitbox {
    AA_Hitbox { origin: vec3(x, -1, -1), extent: vec3(2, 2, 2) }
}

fn x_ray() -> Hitray {
    Hitray(Ray3 { origin: vec3(0, 0, 0), direction: vec3(1, 0, 0) })
}

#[test]
fn nearest_hit_arbitration() {
    // Two boxes along the same ray at entry distances 10 and 20: one shot
    // damages only the nearer; the farther is untouched.
    let mut w = World::new();
    let near = w.spawn_target(box_at(10), 2);
    let far = w.spawn_target(box_at(20), 2);
    w.spawn_ray(x_ray());
    hitline_system(&mut w);
    assert_eq!(w.targets.len(), 2);
    assert_eq!(w.targets[0].id, near);
    assert_eq!(w.targets[0].health, 1);
    assert_eq!(w.targets[1].id, far);
    assert_eq!(w.targets[1].health, 2);
}

#[test]
fn equal_distance_tie_falls_to_iteration_order() {
    // Two targets with identical boxes: the one earlier in iteration
    // order takes the hit.
    let mut w = World::new();
    let first = w.spawn_target(box_at(10), 2);
    let second = w.spawn_target(box_at(10), 2);
    w.spawn_ray(x_ray());
    hitline_system(&mut w);
    assert_eq!(w.targets[0].id, first);
    assert_eq!(w.targets[0].health, 1);
    assert_eq!(w.targets[1].id, second);
    assert_eq!(w.targets[1].health, 2);
}

#[test]
fn destroy_on_depletion() {
    // Health 1 hit once: destroyed and gone. Health 2 hit once: still
    // present with health 1.
    let mut w = World::new();
    let frail = w.spawn_target(box_at(10), 1);
    let sturdy = w.spawn_target(box_at(20), 2);
    w.spawn_ray(x_ray());
    hitline_system(&mut w);
    assert!(w.targets.iter().all(|t| t.id != frail), "depleted target must be removed");
    assert_eq!(w.targets.len(), 1);
    assert_eq!(w.targets[0].id, sturdy);

    w.spawn_ray(x_ray());
    hitline_system(&mut w);
    assert_eq!(w.targets.len(), 1);
    assert_eq!(w.targets[0].id, sturdy);
    assert_eq!(w.targets[0].health, 1);
}

#[test]
fn ray_consumed_on_hit() {
    let mut w = World::new();
    w.spawn_target(box_at(10), 5);
    w.spawn_ray(x_ray());
    hitline_system(&mut w);
    assert_eq!(w.rays.len(), 0, "the ray must be consumed after resolution");
}

#[test]
fn ray_consumed_on_miss() {
    let mut w = World::new();
    w.spawn_ray(Hitray(Ray3 { origin: vec3(0, 0, 0), direction: vec3(1, 1, 0) }));
    hitline_system(&mut w);
    assert_eq!(w.rays.len(), 0, "a ray that hits nothing is discarded too");
    assert_eq!(w.targets.len(), 0);
}

#[test]
fn resolve_ray_reports_struck_handle() {
    let mut w = World::new();
    let id = w.spawn_target(box_at(10), 3);
    let hit = resolve_ray(&mut w.targets, &x_ray());
    assert_eq!(hit, Some(id));
    assert_eq!(w.targets[0].health, 2);

    let miss = resolve_ray(&mut w.targets, &Hitray(Ray3 {
        origin: vec3(0, 50, 0),
        direction: vec3(1, 1, 1),
    }));
    assert_eq!(miss, None);
    assert_eq!(w.targets[0].health, 2);
}

#[test]
fn two_rays_serialize_on_same_target() {
    // Two rays pending in one tick strike the same target one after the
    // other, in creation order.
    let mut w = World::new();
    w.spawn_target(box_at(10), 3);
    w.spawn_ray(x_ray());
    w.spawn_ray(x_ray());
    hitline_system(&mut w);
    assert_eq!(w.targets[0].health, 1);
    assert_eq!(w.rays.len(), 0);
}

#[test]
fn fire_action_spawns_one_ray() {
    let mut w = World::new();
    let mut actions = ActionSet::new();
    actions.insert(ButtonAction::Fire);
    assert!(should_handle_fire(&actions));
    handle_fire(&mut w, &mut actions, vec3(0, 0, 0), vec3(1, 0, 0));
    assert_eq!(w.rays.len(), 1);
    assert!(!should_handle_fire(&actions), "fire is consumed by handling it");

    // Without a pending fire action nothing is spawned.
    handle_fire(&mut w, &mut actions, vec3(0, 0, 0), vec3(1, 0, 0));
    assert_eq!(w.rays.len(), 1);
}

#[test]
fn zero_direction_ray_ties_fall_to_first_target() {
    // A zero-direction ray constrains no axis, so every target reports an
    // unbounded span; the tie falls to the first in iteration order, and
    // the ray is still consumed.
    let mut w = World::new();
    let first = w.spawn_target(box_at(10), 2);
    let second = w.spawn_target(box_at(-30), 2);
    w.spawn_ray(Hitray(Ray3 { origin: vec3(0, 0, 0), direction: vec3(0, 0, 0) }));
    hitline_system(&mut w);
    assert_eq!(w.rays.len(), 0);
    assert_eq!(w.targets[0].id, first);
    assert_eq!(w.targets[0].health, 1);
    assert_eq!(w.targets[1].id, second);
    assert_eq!(w.targets[1].health, 2);
}

#[test]
fn spawned_handles_are_fresh_and_increasing() {
    let mut w = World::new();
    let a = w.spawn_target(box_at(10), 1);
    let b = w.spawn_target(box_at(20), 1);
    let r = w.spawn_ray(x_ray());
    assert!(a < b && b < r, "handles are handed out in increasing order");
}

#[test]
fn behind_target_is_struck_by_backward_span() {
    // Preserved slab-test behavior: a box wholly behind the ray origin
    // still yields a span (at negative distances) and can take the hit.
    let mut w = World::new();
    let behind = w.spawn_target(box_at(-20), 2);
    w.spawn_ray(x_ray());
    hitline_system(&mut w);
    assert_eq!(w.targets[0].id, behind);
    assert_eq!(w.targets[0].health, 1);
}
