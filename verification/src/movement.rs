//! The movement controller: directional actions translate the viewpoint.
//!
//! Each of the four directional actions, if pending, is consumed and adds
//! one fixed step vector; the four contributions are evaluated
//! independently and summed, not normalized, so diagonal movement is
//! faster than axis-aligned movement. Moving right adds the negated left
//! vector rather than a dedicated right vector — equivalent for an
//! orthonormal camera basis, and preserved as observed behavior. After
//! integration the vertical coordinate is pinned to a fixed height; the
//! jump and crouch actions exist but have no handler here, by design.

use crate::actions::ActionSet;
use crate::configs::ButtonAction;
use crate::physics::Vec3i;
use vstd::prelude::*;

verus! {

/// The largest coordinate magnitude the movement controller accepts; keeps
/// the sum of a position and two step vectors inside `i32` range.
pub const MOVE_LIMIT: i32 = 0x1000_0000;

/// Every component of `v` is within the movement controller's range.
pub open spec fn in_move_range(v: Vec3i) -> bool {
    &&& -MOVE_LIMIT <= v.x <= MOVE_LIMIT
    &&& -MOVE_LIMIT <= v.y <= MOVE_LIMIT
    &&& -MOVE_LIMIT <= v.z <= MOVE_LIMIT
}

/// `v` when `flag` is set, else nothing.
pub open spec fn step_if(flag: bool, v: int) -> int {
    if flag {
        v
    } else {
        0
    }
}

/// The viewpoint after one movement step: the four directional
/// contributions summed independently, then the vertical coordinate pinned.
pub open spec fn movement_model(
    s: ActionSet,
    pos: Vec3i,
    forward: Vec3i,
    left_v: Vec3i,
    pinned_y: i32,
) -> Vec3i {
    Vec3i {
        x: (pos.x + step_if(s.has(ButtonAction::MoveForward), forward.x as int) - step_if(
            s.has(ButtonAction::MoveBackward),
            forward.x as int,
        ) + step_if(s.has(ButtonAction::MoveLeft), left_v.x as int) - step_if(
            s.has(ButtonAction::MoveRight),
            left_v.x as int,
        )) as i32,
        y: pinned_y,
        z: (pos.z + step_if(s.has(ButtonAction::MoveForward), forward.z as int) - step_if(
            s.has(ButtonAction::MoveBackward),
            forward.z as int,
        ) + step_if(s.has(ButtonAction::MoveLeft), left_v.z as int) - step_if(
            s.has(ButtonAction::MoveRight),
            left_v.z as int,
        )) as i32,
    }
}

/// The action set after the movement controller has consumed the four
/// directional actions.
pub open spec fn after_movement(s: ActionSet) -> ActionSet {
    s.without(ButtonAction::MoveForward).without(ButtonAction::MoveBackward).without(
        ButtonAction::MoveLeft,
    ).without(ButtonAction::MoveRight)
}

/// Consume the directional actions and translate the viewpoint: one step
/// vector per pending direction, summed independently, vertical coordinate
/// pinned to `pinned_y` afterwards. Non-directional actions are untouched.
pub fn handle_movement(
    actions: &mut ActionSet,
    pos: Vec3i,
    forward: Vec3i,
    left_v: Vec3i,
    pinned_y: i32,
) -> (new_pos: Vec3i)
    requires
        in_move_range(pos),
        in_move_range(forward),
        in_move_range(left_v),
    ensures
        new_pos == movement_model(*old(actions), pos, forward, left_v, pinned_y),
        *final(actions) == after_movement(*old(actions)),
        forall|a: ButtonAction|
            final(actions).has(a) == (old(actions).has(a) && a != ButtonAction::MoveForward && a
                != ButtonAction::MoveBackward && a != ButtonAction::MoveLeft && a
                != ButtonAction::MoveRight),
{
    let mut fx: i64 = pos.x as i64;
    let mut fz: i64 = pos.z as i64;

    if actions.take(ButtonAction::MoveForward) {
        fx = fx + forward.x as i64;
        fz = fz + forward.z as i64;
    }
    if actions.take(ButtonAction::MoveBackward) {
        fx = fx - forward.x as i64;
        fz = fz - forward.z as i64;
    }
    if actions.take(ButtonAction::MoveLeft) {
        fx = fx + left_v.x as i64;
        fz = fz + left_v.z as i64;
    }
    if actions.take(ButtonAction::MoveRight) {
        fx = fx - left_v.x as i64;
        fz = fz - left_v.z as i64;
    }

    proof {
        assert(-0x8000_0000 <= fx <= 0x7fff_ffff);
        assert(-0x8000_0000 <= fz <= 0x7fff_ffff);
    }
    Vec3i { x: fx as i32, y: pinned_y, z: fz as i32 }
}

} // verus!
