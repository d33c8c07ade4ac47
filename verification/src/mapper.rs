//! The input mapper: raw inputs held this tick become semantic actions.
//!
//! Given the input map and the set of currently-held raw inputs, the mapper
//! inserts into the shared action set every action some held raw input is
//! bound to. It only ever inserts — removal is the consumers' job — so
//! actions already present stay present.

use crate::actions::ActionSet;
use crate::configs::{ButtonAction, InputMap, RawInputContainer};
use vstd::prelude::*;

verus! {

/// Whether raw input `r` is among the held inputs `pressed`.
pub open spec fn pressed_has(pressed: Seq<RawInputContainer>, r: RawInputContainer) -> bool {
    exists|k: int| 0 <= k < pressed.len() && #[trigger] pressed[k] == r
}

/// Whether some held raw input is bound to action `a`.
pub open spec fn action_triggered(
    cfg: InputMap,
    pressed: Seq<RawInputContainer>,
    a: ButtonAction,
) -> bool {
    exists|k: int| 0 <= k < pressed.len() && cfg.binds(#[trigger] pressed[k], a)
}

/// The action set after one mapper run: everything already present, plus
/// every action some held raw input is bound to.
pub open spec fn mapper_model(
    cfg: InputMap,
    pressed: Seq<RawInputContainer>,
    s: ActionSet,
) -> ActionSet {
    ActionSet {
        move_left: s.move_left || action_triggered(cfg, pressed, ButtonAction::MoveLeft),
        move_right: s.move_right || action_triggered(cfg, pressed, ButtonAction::MoveRight),
        move_forward: s.move_forward || action_triggered(cfg, pressed, ButtonAction::MoveForward),
        move_backward: s.move_backward || action_triggered(
            cfg,
            pressed,
            ButtonAction::MoveBackward,
        ),
        jump: s.jump || action_triggered(cfg, pressed, ButtonAction::Jump),
        crouch: s.crouch || action_triggered(cfg, pressed, ButtonAction::Crouch),
        fire: s.fire || action_triggered(cfg, pressed, ButtonAction::Fire),
        secondary_fire: s.secondary_fire || action_triggered(
            cfg,
            pressed,
            ButtonAction::SecondaryFire,
        ),
    }
}

/// Whether `r` is among the held inputs.
fn pressed_contains(pressed: &Vec<RawInputContainer>, r: RawInputContainer) -> (res: bool)
    ensures
        res == pressed_has(pressed@, r),
{
    let n = pressed.len();
    let mut i: usize = 0;
    while i < n
        invariant
            n == pressed@.len(),
            0 <= i <= n,
            forall|k: int| 0 <= k < i ==> #[trigger] pressed@[k] != r,
        decreases n - i,
    {
        if pressed[i] == r {
            proof {
                assert(pressed@[i as int] == r);
            }
            return true;
        }
        i = i + 1;
    }
    false
}

/// One mapper run: for every binding whose raw input is currently held,
/// signal the bound action. Actions already in the set are kept; nothing is
/// removed.
pub fn handle_raw_input(cfg: &InputMap, pressed: &Vec<RawInputContainer>, actions: &mut ActionSet)
    ensures
        *final(actions) == mapper_model(*cfg, pressed@, *old(actions)),
        forall|a: ButtonAction|
            final(actions).has(a) == (old(actions).has(a) || action_triggered(*cfg, pressed@, a)),
{
    let n = cfg.bindings.len();
    let mut i: usize = 0;
    while i < n
        invariant
            n == cfg.bindings@.len(),
            0 <= i <= n,
            forall|a: ButtonAction|
                actions.has(a) == (old(actions).has(a) || exists|j: int|
                    0 <= j < i && pressed_has(pressed@, (#[trigger] cfg.bindings@[j]).0) && (
                    cfg.bindings@[j]).1 == a),
        decreases n - i,
    {
        let (key, act) = cfg.bindings[i];
        if pressed_contains(pressed, key) {
            actions.insert(act);
            proof {
                assert(pressed_has(pressed@, (cfg.bindings@[i as int]).0) && (cfg.bindings@[
                    i as int]).1 == act);
            }
        }
        i = i + 1;
    }
    proof {
        let cfg0 = *cfg;
        let pr = pressed@;
        assert forall|a: ButtonAction| (exists|j: int|
            0 <= j < n && pressed_has(pr, (#[trigger] cfg0.bindings@[j]).0) && (cfg0.bindings@[
            j]).1 == a) == action_triggered(cfg0, pr, a) by {
            if exists|j: int|
                0 <= j < n && pressed_has(pr, (#[trigger] cfg0.bindings@[j]).0) && (
                cfg0.bindings@[j]).1 == a {
                let j = choose|j: int|
                    0 <= j < n && pressed_has(pr, (#[trigger] cfg0.bindings@[j]).0) && (
                    cfg0.bindings@[j]).1 == a;
                let k = choose|k: int| 0 <= k < pr.len() && #[trigger] pr[k] == (cfg0.bindings@[
                    j]).0;
                assert(cfg0.bindings@[j] == (pr[k], a));
                assert(cfg0.binds(pr[k], a));
            }
            if action_triggered(cfg0, pr, a) {
                let k = choose|k: int| 0 <= k < pr.len() && cfg0.binds(#[trigger] pr[k], a);
                let j = choose|j: int|
                    0 <= j < cfg0.bindings@.len() && #[trigger] cfg0.bindings@[j] == (pr[k], a);
                assert(pressed_has(pr, (cfg0.bindings@[j]).0));
            }
        }
        let s0 = *old(actions);
        assert(actions.has(ButtonAction::MoveLeft) == (s0.has(ButtonAction::MoveLeft)
            || action_triggered(cfg0, pr, ButtonAction::MoveLeft)));
        assert(actions.has(ButtonAction::MoveRight) == (s0.has(ButtonAction::MoveRight)
            || action_triggered(cfg0, pr, ButtonAction::MoveRight)));
        assert(actions.has(ButtonAction::MoveForward) == (s0.has(ButtonAction::MoveForward)
            || action_triggered(cfg0, pr, ButtonAction::MoveForward)));
        assert(actions.has(ButtonAction::MoveBackward) == (s0.has(ButtonAction::MoveBackward)
            || action_triggered(cfg0, pr, ButtonAction::MoveBackward)));
        assert(actions.has(ButtonAction::Jump) == (s0.has(ButtonAction::Jump) || action_triggered(
            cfg0,
            pr,
            ButtonAction::Jump,
        )));
        assert(actions.has(ButtonAction::Crouch) == (s0.has(ButtonAction::Crouch)
            || action_triggered(cfg0, pr, ButtonAction::Crouch)));
        assert(actions.has(ButtonAction::Fire) == (s0.has(ButtonAction::Fire) || action_triggered(
            cfg0,
            pr,
            ButtonAction::Fire,
        )));
        assert(actions.has(ButtonAction::SecondaryFire) == (s0.has(ButtonAction::SecondaryFire)
            || action_triggered(cfg0, pr, ButtonAction::SecondaryFire)));
        assert(*actions == mapper_model(cfg0, pr, s0));
    }
}

/// Take-once, then re-mapped: an action taken by one consumer is absent for
/// a second consumer in the same tick; the next tick's mapper run, with a
/// bound raw input still held, re-inserts it.
pub proof fn lemma_take_once_then_remap(
    s: ActionSet,
    a: ButtonAction,
    cfg: InputMap,
    pressed: Seq<RawInputContainer>,
    k: int,
)
    requires
        0 <= k < pressed.len(),
        cfg.binds(pressed[k], a),
    ensures
        !s.without(a).has(a),
        mapper_model(cfg, pressed, s.without(a)).has(a),
{
    assert(action_triggered(cfg, pressed, a));
}

} // verus!
