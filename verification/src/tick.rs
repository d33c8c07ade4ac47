//! One simulation tick, as an explicit, fixed sequence of stages.
//!
//! Per tick: the input mapper populates the action set; the movement
//! controller consumes the directional actions; fire handling consumes the
//! fire action and, if it was pending, spawns a transient ray from the new
//! viewpoint along the look direction; the hit resolver then consumes
//! every pending ray against the live targets. Continuous camera rotation
//! is an external concern of the embedder: the tick takes the camera basis
//! as given.

use crate::actions::ActionSet;
use crate::configs::{ButtonAction, InputMap, RawInputContainer};
use crate::mapper::{handle_raw_input, mapper_model};
use crate::movement::{after_movement, handle_movement, in_move_range, movement_model};
use crate::physics::{Hitray, Ray3, Vec3i};
use crate::world::{handle_fire, hitline_system, resolve_all, should_handle_fire, RayEntry, World};
use vstd::prelude::*;

verus! {

/// Run one full tick: map raw inputs to actions, move, fire, resolve.
/// Returns the new viewpoint. The whole tick is stated in terms of the
/// stage models, chained in the fixed stage order.
pub fn run_tick(
    cfg: &InputMap,
    pressed: &Vec<RawInputContainer>,
    actions: &mut ActionSet,
    world: &mut World,
    camera_pos: Vec3i,
    forward: Vec3i,
    left_v: Vec3i,
    pinned_y: i32,
) -> (new_pos: Vec3i)
    requires
        in_move_range(camera_pos),
        in_move_range(forward),
        in_move_range(left_v),
        old(world).wf(),
        old(world).next_id < u64::MAX,
    ensures
        final(world).wf(),
        final(world).rays@.len() == 0,
        ({
            let mapped = mapper_model(*cfg, pressed@, *old(actions));
            let moved = after_movement(mapped);
            &&& new_pos == movement_model(mapped, camera_pos, forward, left_v, pinned_y)
            &&& *final(actions) == moved.without(ButtonAction::Fire)
            &&& (moved.has(ButtonAction::Fire) ==> final(world).targets@ == resolve_all(
                old(world).targets@,
                old(world).rays@.push(
                    RayEntry {
                        id: old(world).next_id,
                        ray: Hitray(Ray3 { origin: new_pos, direction: forward }),
                    },
                ),
            ))
            &&& (!moved.has(ButtonAction::Fire) ==> final(world).targets@ == resolve_all(
                old(world).targets@,
                old(world).rays@,
            ))
        }),
{
    handle_raw_input(cfg, pressed, actions);
    let new_pos = handle_movement(actions, camera_pos, forward, left_v, pinned_y);
    if should_handle_fire(actions) {
        handle_fire(world, actions, new_pos, forward);
    } else {
        proof {
            assert(*actions == actions.without(ButtonAction::Fire));
        }
    }
    hitline_system(world);
    new_pos
}

} // verus!
