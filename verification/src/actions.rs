//! Per-tick action state with take-once semantics.
//!
//! An action present in the set was signaled by at least one bound raw
//! input during the most recent sampling; multiple raw inputs triggering
//! the same action coalesce into a single membership. Consuming an action
//! with `take` is destructive: a second consumer in the same tick sees it
//! absent. The input mapper re-populates the set every tick.

use crate::configs::ButtonAction;
use vstd::prelude::*;

verus! {

/// The set of semantic actions signaled this tick and not yet consumed.
#[derive(Clone, Copy, Debug, PartialEq, Eq, Structural)]
pub struct ActionSet {
    pub move_left: bool,
    pub move_right: bool,
    pub move_forward: bool,
    pub move_backward: bool,
    pub jump: bool,
    pub crouch: bool,
    pub fire: bool,
    pub secondary_fire: bool,
}

impl ActionSet {
    /// Whether `a` is signaled and not yet consumed.
    pub open spec fn has(self, a: ButtonAction) -> bool {
        match a {
            ButtonAction::MoveLeft => self.move_left,
            ButtonAction::MoveRight => self.move_right,
            ButtonAction::MoveForward => self.move_forward,
            ButtonAction::MoveBackward => self.move_backward,
            ButtonAction::Jump => self.jump,
            ButtonAction::Crouch => self.crouch,
            ButtonAction::Fire => self.fire,
            ButtonAction::SecondaryFire => self.secondary_fire,
        }
    }

    /// The set with `a` present.
    pub open spec fn with(self, a: ButtonAction) -> ActionSet {
        match a {
            ButtonAction::MoveLeft => ActionSet { move_left: true, ..self },
            ButtonAction::MoveRight => ActionSet { move_right: true, ..self },
            ButtonAction::MoveForward => ActionSet { move_forward: true, ..self },
            ButtonAction::MoveBackward => ActionSet { move_backward: true, ..self },
            ButtonAction::Jump => ActionSet { jump: true, ..self },
            ButtonAction::Crouch => ActionSet { crouch: true, ..self },
            ButtonAction::Fire => ActionSet { fire: true, ..self },
            ButtonAction::SecondaryFire => ActionSet { secondary_fire: true, ..self },
        }
    }

    /// The set with `a` absent.
    pub open spec fn without(self, a: ButtonAction) -> ActionSet {
        match a {
            ButtonAction::MoveLeft => ActionSet { move_left: false, ..self },
            ButtonAction::MoveRight => ActionSet { move_right: false, ..self },
            ButtonAction::MoveForward => ActionSet { move_forward: false, ..self },
            ButtonAction::MoveBackward => ActionSet { move_backward: false, ..self },
            ButtonAction::Jump => ActionSet { jump: false, ..self },
            ButtonAction::Crouch => ActionSet { crouch: false, ..self },
            ButtonAction::Fire => ActionSet { fire: false, ..self },
            ButtonAction::SecondaryFire => ActionSet { secondary_fire: false, ..self },
        }
    }

    /// The empty set: nothing signaled.
    pub fn new() -> (s: ActionSet)
        ensures
            forall|a: ButtonAction| !s.has(a),
    {
        ActionSet {
            move_left: false,
            move_right: false,
            move_forward: false,
            move_backward: false,
            jump: false,
            crouch: false,
            fire: false,
            secondary_fire: false,
        }
    }

    /// Signal `a`: membership of every other action is unchanged.
    pub fn insert(&mut self, a: ButtonAction)
        ensures
            *final(self) == old(self).with(a),
            forall|x: ButtonAction| final(self).has(x) == (x == a || old(self).has(x)),
    {
        match a {
            ButtonAction::MoveLeft => self.move_left = true,
            ButtonAction::MoveRight => self.move_right = true,
            ButtonAction::MoveForward => self.move_forward = true,
            ButtonAction::MoveBackward => self.move_backward = true,
            ButtonAction::Jump => self.jump = true,
            ButtonAction::Crouch => self.crouch = true,
            ButtonAction::Fire => self.fire = true,
            ButtonAction::SecondaryFire => self.secondary_fire = true,
        }
    }

    /// Whether `a` is currently signaled, without consuming it.
    pub fn contains(&self, a: ButtonAction) -> (r: bool)
        ensures
            r == self.has(a),
    {
        match a {
            ButtonAction::MoveLeft => self.move_left,
            ButtonAction::MoveRight => self.move_right,
            ButtonAction::MoveForward => self.move_forward,
            ButtonAction::MoveBackward => self.move_backward,
            ButtonAction::Jump => self.jump,
            ButtonAction::Crouch => self.crouch,
            ButtonAction::Fire => self.fire,
            ButtonAction::SecondaryFire => self.secondary_fire,
        }
    }

    /// Consume `a`: report whether it was present and remove it, so that a
    /// second consumer in the same tick sees it absent.
    pub fn take(&mut self, a: ButtonAction) -> (r: bool)
        ensures
            r == old(self).has(a),
            *final(self) == old(self).without(a),
            forall|x: ButtonAction| final(self).has(x) == (old(self).has(x) && x != a),
    {
        let r = self.contains(a);
        match a {
            ButtonAction::MoveLeft => self.move_left = false,
            ButtonAction::MoveRight => self.move_right = false,
            ButtonAction::MoveForward => self.move_forward = false,
            ButtonAction::MoveBackward => self.move_backward = false,
            ButtonAction::Jump => self.jump = false,
            ButtonAction::Crouch => self.crouch = false,
            ButtonAction::Fire => self.fire = false,
            ButtonAction::SecondaryFire => self.secondary_fire = false,
        }
        r
    }
}

} // verus!
