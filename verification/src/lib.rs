//! Hitscan combat core for a small 3D arena: raw inputs become semantic
//! actions, directional actions move the viewpoint, and a fire action casts
//! a ray against a set of destructible targets — the nearest intersecting
//! target takes one damage and is removed when its health is exhausted.
//!
//! Geometry is exact: coordinates are integers and ray distances are
//! rationals, so the slab-method intersection test carries a full
//! correctness contract instead of floating-point approximation.
//!
//! Module map: `configs` (actions, raw inputs, key bindings), `actions`
//! (per-tick action state with take-once semantics), `mapper` (raw inputs
//! to actions), `movement` (viewpoint translation), `rat` (exact ray
//! distances), `physics` (ray/box slab test), `world` (entity arena and
//! hit resolver), `tick` (the fixed per-tick stage order).

pub mod actions;
pub mod configs;
pub mod mapper;
pub mod movement;
pub mod physics;
pub mod rat;
pub mod tick;
pub mod world;

use vstd::prelude::*;

verus! {

} // verus!
