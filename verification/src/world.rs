//! The simulation world: an explicit arena of destructible targets and
//! transient hit rays, and the hit resolver.
//!
//! Entities carry stable integer handles. A target owns one axis-aligned
//! hitbox and one health value; it stays in the world exactly while its
//! health is positive. A hit ray lives for exactly one resolution pass:
//! the resolver evaluates it against every target, damages at most one —
//! the nearest intersecting one, earliest in iteration order on a tie —
//! and always consumes the ray.

use crate::actions::ActionSet;
use crate::configs::ButtonAction;
use crate::physics::{
    check_collision, slab_fold, slab_reports_hit, AA_Hitbox, HitSpan, Hitray, Ray3, Vec3i,
};
use crate::rat::{fle, flt};
use vstd::prelude::*;

verus! {

/// A destructible target: a stable handle, its bounding box, and its
/// remaining health.
#[derive(Clone, Copy, Debug, PartialEq, Eq, Structural)]
pub struct TargetEntry {
    pub id: u64,
    pub hitbox: AA_Hitbox,
    pub health: i64,
}

/// One pending shot: a stable handle and the fired ray.
#[derive(Clone, Copy, Debug, PartialEq, Eq, Structural)]
pub struct RayEntry {
    pub id: u64,
    pub ray: Hitray,
}

/// Every stored target has a well-formed hitbox and positive health.
pub open spec fn targets_wf(ts: Seq<TargetEntry>) -> bool {
    forall|i: int| 0 <= i < ts.len() ==> (#[trigger] ts[i]).hitbox.wf() && 0 < ts[i].health
}

/// Target handles are strictly increasing (hence unique) and below `bound`.
pub open spec fn target_ids_ok(ts: Seq<TargetEntry>, bound: u64) -> bool {
    &&& forall|i: int, j: int|
        0 <= i < j < ts.len() ==> (#[trigger] ts[i]).id < (#[trigger] ts[j]).id
    &&& forall|i: int| 0 <= i < ts.len() ==> (#[trigger] ts[i]).id < bound
}

/// Ray handles are strictly increasing (hence unique) and below `bound`.
pub open spec fn ray_ids_ok(rs: Seq<RayEntry>, bound: u64) -> bool {
    &&& forall|i: int, j: int|
        0 <= i < j < rs.len() ==> (#[trigger] rs[i]).id < (#[trigger] rs[j]).id
    &&& forall|i: int| 0 <= i < rs.len() ==> (#[trigger] rs[i]).id < bound
}

/// The simulation world: all live targets and all pending rays, in
/// creation order, plus the next fresh handle.
pub struct World {
    pub next_id: u64,
    pub targets: Vec<TargetEntry>,
    pub rays: Vec<RayEntry>,
}

impl World {
    /// Well-formedness: target and ray invariants, and fresh handles.
    pub open spec fn wf(self) -> bool {
        &&& targets_wf(self.targets@)
        &&& target_ids_ok(self.targets@, self.next_id)
        &&& ray_ids_ok(self.rays@, self.next_id)
    }

    /// An empty world.
    pub fn new() -> (w: World)
        ensures
            w.wf(),
            w.targets@.len() == 0,
            w.rays@.len() == 0,
    {
        World { next_id: 0, targets: Vec::new(), rays: Vec::new() }
    }

    /// Spawn a destructible target; returns its handle.
    pub fn spawn_target(&mut self, hitbox: AA_Hitbox, health: i64) -> (id: u64)
        requires
            old(self).wf(),
            hitbox.wf(),
            0 < health,
            old(self).next_id < u64::MAX,
        ensures
            final(self).wf(),
            id == old(self).next_id,
            final(self).next_id == old(self).next_id + 1,
            final(self).targets@ == old(self).targets@.push(TargetEntry { id, hitbox, health }),
            final(self).rays@ == old(self).rays@,
    {
        let id = self.next_id;
        self.targets.push(TargetEntry { id, hitbox, health });
        self.next_id = self.next_id + 1;
        id
    }

    /// Spawn a transient hit ray; returns its handle.
    pub fn spawn_ray(&mut self, ray: Hitray) -> (id: u64)
        requires
            old(self).wf(),
            old(self).next_id < u64::MAX,
        ensures
            final(self).wf(),
            id == old(self).next_id,
            final(self).next_id == old(self).next_id + 1,
            final(self).rays@ == old(self).rays@.push(RayEntry { id, ray }),
            final(self).targets@ == old(self).targets@,
    {
        let id = self.next_id;
        self.rays.push(RayEntry { id, ray });
        self.next_id = self.next_id + 1;
        id
    }
}

/// Whether the fire action is pending, without consuming it.
pub fn should_handle_fire(actions: &ActionSet) -> (r: bool)
    ensures
        r == actions.has(ButtonAction::Fire),
{
    actions.contains(ButtonAction::Fire)
}

/// Consume the fire action; when it was pending, spawn one hit ray from the
/// viewpoint along the look direction. Nothing else changes.
pub fn handle_fire(world: &mut World, actions: &mut ActionSet, origin: Vec3i, direction: Vec3i)
    requires
        old(world).wf(),
        old(world).next_id < u64::MAX,
    ensures
        final(world).wf(),
        *final(actions) == old(actions).without(ButtonAction::Fire),
        old(actions).has(ButtonAction::Fire) ==> final(world).rays@ == old(world).rays@.push(
            RayEntry { id: old(world).next_id, ray: Hitray(Ray3 { origin, direction }) },
        ) && final(world).targets@ == old(world).targets@ && final(world).next_id == old(
            world,
        ).next_id + 1,
        !old(actions).has(ButtonAction::Fire) ==> *final(world) == *old(world),
{
    if actions.take(ButtonAction::Fire) {
        world.spawn_ray(Hitray(Ray3 { origin, direction }));
    }
}

/// Whether the slab test reports ray `r` striking target `t`.
pub open spec fn target_hit(t: TargetEntry, r: Ray3) -> bool {
    slab_reports_hit(t.hitbox, r)
}

/// Whether box `b1`'s reported span begins strictly before `b2`'s along
/// ray `r`. A wholly unconstrained span begins unboundedly early.
pub open spec fn hit_before(b1: AA_Hitbox, b2: AA_Hitbox, r: Ray3) -> bool {
    match (slab_fold(b1, r), slab_fold(b2, r)) {
        (Option::None, Option::None) => false,
        (Option::None, Option::Some(_)) => true,
        (Option::Some(_), Option::None) => false,
        (Option::Some((l1, _)), Option::Some((l2, _))) => flt(l1, l2),
    }
}

/// No span begins strictly before itself.
proof fn lemma_hit_before_irrefl(b: AA_Hitbox, r: Ray3)
    ensures
        !hit_before(b, b, r),
{
}

/// When `a`'s span begins strictly before `bb`'s, and `c`'s does not, then
/// `a`'s begins strictly before `c`'s as well, and not the other way round.
proof fn lemma_hit_before_shift(a: AA_Hitbox, bb: AA_Hitbox, c: AA_Hitbox, r: Ray3)
    requires
        hit_before(a, bb, r),
        !hit_before(c, bb, r),
    ensures
        hit_before(a, c, r),
        !hit_before(c, a, r),
{
    crate::physics::lemma_fold_props(a, r);
    crate::physics::lemma_fold_props(bb, r);
    crate::physics::lemma_fold_props(c, r);
    match (slab_fold(a, r), slab_fold(bb, r), slab_fold(c, r)) {
        (Option::Some((la, _)), Option::Some((lb, _)), Option::Some((lc, _))) => {
            crate::rat::lemma_flt_fle_trans(la, lb, lc);
        },
        _ => {
        },
    }
}

/// The index the resolver selects among the first `n` targets: the first
/// target, in iteration order, whose reported span begins earliest.
pub open spec fn best_hit_prefix(ts: Seq<TargetEntry>, r: Ray3, n: int) -> Option<int>
    decreases n,
{
    if n <= 0 {
        None
    } else {
        let prev = best_hit_prefix(ts, r, n - 1);
        if !target_hit(ts[n - 1], r) {
            prev
        } else {
            match prev {
                None => Some(n - 1),
                Some(j) => if hit_before(ts[n - 1].hitbox, ts[j].hitbox, r) {
                    Some(n - 1)
                } else {
                    Some(j)
                },
            }
        }
    }
}

/// The index the resolver selects for ray `r`, if any target is struck.
pub open spec fn best_hit_idx(ts: Seq<TargetEntry>, r: Ray3) -> Option<int> {
    best_hit_prefix(ts, r, ts.len() as int)
}

/// Nearest-hit arbitration: the selected target is struck, no struck
/// target's span begins strictly before its span, and every struck target
/// earlier in iteration order begins strictly later — so equal entry
/// distances fall to the earliest candidate, and when nothing is struck
/// nothing is selected.
pub proof fn lemma_nearest_hit_selected(ts: Seq<TargetEntry>, r: Ray3, n: int)
    requires
        0 <= n <= ts.len(),
    ensures
        match best_hit_prefix(ts, r, n) {
            None => forall|k: int| 0 <= k < n ==> !target_hit(#[trigger] ts[k], r),
            Some(j) => 0 <= j < n && target_hit(ts[j], r) && (forall|k: int|
                0 <= k < n && target_hit(#[trigger] ts[k], r) ==> !hit_before(
                    ts[k].hitbox,
                    ts[j].hitbox,
                    r,
                )) && (forall|k: int|
                0 <= k < j && target_hit(#[trigger] ts[k], r) ==> hit_before(
                    ts[j].hitbox,
                    ts[k].hitbox,
                    r,
                )),
        },
    decreases n,
{
    if n > 0 {
        lemma_nearest_hit_selected(ts, r, n - 1);
        let prev = best_hit_prefix(ts, r, n - 1);
        let k = n - 1;
        if target_hit(ts[k], r) {
            match prev {
                None => {
                    assert forall|x: int|
                        0 <= x < n && target_hit(#[trigger] ts[x], r) implies !hit_before(
                        ts[x].hitbox,
                        ts[k].hitbox,
                        r,
                    ) by {
                        lemma_hit_before_irrefl(ts[k].hitbox, r);
                    }
                },
                Some(j) => {
                    if hit_before(ts[k].hitbox, ts[j].hitbox, r) {
                        assert forall|x: int|
                            0 <= x < n && target_hit(#[trigger] ts[x], r) implies !hit_before(
                            ts[x].hitbox,
                            ts[k].hitbox,
                            r,
                        ) by {
                            if x < n - 1 {
                                lemma_hit_before_shift(ts[k].hitbox, ts[j].hitbox, ts[x].hitbox, r);
                            } else {
                                lemma_hit_before_irrefl(ts[k].hitbox, r);
                            }
                        }
                        assert forall|x: int|
                            0 <= x < k && target_hit(#[trigger] ts[x], r) implies hit_before(
                            ts[k].hitbox,
                            ts[x].hitbox,
                            r,
                        ) by {
                            lemma_hit_before_shift(ts[k].hitbox, ts[j].hitbox, ts[x].hitbox, r);
                        }
                    }
                },
            }
        }
    }
}

/// The target list after one ray's resolution: the selected target loses
/// one health, and leaves the world when that exhausts it.
pub open spec fn resolve_one(ts: Seq<TargetEntry>, r: Ray3) -> Seq<TargetEntry> {
    match best_hit_idx(ts, r) {
        None => ts,
        Some(j) => if ts[j].health <= 1 {
            ts.remove(j)
        } else {
            ts.update(j, TargetEntry { health: (ts[j].health - 1) as i64, ..ts[j] })
        },
    }
}

/// The target list after resolving every pending ray, in creation order.
pub open spec fn resolve_all(ts: Seq<TargetEntry>, rays: Seq<RayEntry>) -> Seq<TargetEntry>
    decreases rays.len(),
{
    if rays.len() == 0 {
        ts
    } else {
        resolve_all(resolve_one(ts, rays[0].ray.0), rays.subrange(1, rays.len() as int))
    }
}

/// Whether `sp` is the span `check_collision` reported for box `b`.
pub open spec fn span_matches(b: AA_Hitbox, r: Ray3, sp: HitSpan) -> bool {
    match sp {
        HitSpan::Whole => slab_fold(b, r) is None,
        HitSpan::Span { entry, exit } => match slab_fold(b, r) {
            Option::Some((l, h)) => entry@ == l && exit@ == h && fle(l, h),
            Option::None => false,
        },
    }
}

/// Whether span `a` begins strictly before span `b`.
pub open spec fn span_spec_lt(a: HitSpan, b: HitSpan) -> bool {
    match (a, b) {
        (HitSpan::Whole, HitSpan::Whole) => false,
        (HitSpan::Whole, HitSpan::Span { .. }) => true,
        (HitSpan::Span { .. }, HitSpan::Whole) => false,
        (HitSpan::Span { entry: e1, .. }, HitSpan::Span { entry: e2, .. }) => flt(e1@, e2@),
    }
}

/// Exact comparison of two reported spans' beginnings.
fn span_starts_before(a: &HitSpan, b: &HitSpan) -> (r: bool)
    ensures
        r == span_spec_lt(*a, *b),
{
    match (a, b) {
        (HitSpan::Whole, HitSpan::Whole) => false,
        (HitSpan::Whole, HitSpan::Span { .. }) => true,
        (HitSpan::Span { .. }, HitSpan::Whole) => false,
        (HitSpan::Span { entry: e1, .. }, HitSpan::Span { entry: e2, .. }) => e1.lt(e2),
    }
}

/// Comparing the reported spans compares the underlying boxes' beginnings.
proof fn lemma_span_lt_is_hit_before(b1: AA_Hitbox, b2: AA_Hitbox, r: Ray3, sp1: HitSpan, sp2: HitSpan)
    requires
        span_matches(b1, r, sp1),
        span_matches(b2, r, sp2),
    ensures
        span_spec_lt(sp1, sp2) == hit_before(b1, b2, r),
{
}

/// Resolve one ray against the targets: damage the nearest struck target —
/// the earliest in iteration order on a tie — removing it when its health
/// is exhausted, and report its handle. A ray that strikes nothing changes
/// nothing.
pub fn resolve_ray(targets: &mut Vec<TargetEntry>, hitray: &Hitray) -> (hit: Option<u64>)
    requires
        targets_wf(old(targets)@),
    ensures
        final(targets)@ == resolve_one(old(targets)@, hitray.0),
        targets_wf(final(targets)@),
        match best_hit_idx(old(targets)@, hitray.0) {
            None => hit is None && final(targets)@ == old(targets)@,
            Some(j) => hit == Some(old(targets)@[j].id),
        },
{
    let ghost ts0 = targets@;
    let ghost r = hitray.0;
    let n = targets.len();
    let mut best: Option<(usize, HitSpan)> = None;
    let mut i: usize = 0;
    while i < n
        invariant
            targets@ == ts0,
            targets_wf(ts0),
            n == ts0.len(),
            0 <= i <= n,
            r == hitray.0,
            match best {
                None => best_hit_prefix(ts0, r, i as int) is None,
                Some((j, sp)) => best_hit_prefix(ts0, r, i as int) == Some(j as int) && j < n
                    && span_matches(ts0[j as int].hitbox, r, sp),
            },
        decreases n - i,
    {
        let t = targets[i];
        let res = check_collision(&t.hitbox, hitray);
        proof {
            assert(ts0[i as int] == t);
        }
        match res {
            None => {
                proof {
                    assert(!target_hit(ts0[i as int], r));
                }
            },
            Some(sp) => {
                proof {
                    assert(span_matches(t.hitbox, r, sp));
                    assert(target_hit(ts0[i as int], r));
                }
                let replace: bool = match &best {
                    None => true,
                    Some((bj, bsp)) => {
                        let ghost bjv = *bj as int;
                        let sb = span_starts_before(&sp, bsp);
                        proof {
                            lemma_span_lt_is_hit_before(
                                t.hitbox,
                                ts0[bjv].hitbox,
                                r,
                                sp,
                                *bsp,
                            );
                        }
                        sb
                    },
                };
                if replace {
                    best = Some((i, sp));
                }
            },
        }
        i = i + 1;
    }
    match best {
        None => {
            proof {
                assert(targets@ == resolve_one(ts0, r));
            }
            None
        },
        Some((j, _)) => {
            let t = targets[j];
            proof {
                assert(best_hit_idx(ts0, r) == Some(j as int));
                assert(ts0[j as int] == t);
            }
            if t.health <= 1 {
                targets.remove(j);
                proof {
                    assert(targets@ == resolve_one(ts0, r));
                    assert(targets_wf(targets@)) by {
                        assert forall|x: int|
                            0 <= x < targets@.len() implies (#[trigger] targets@[x]).hitbox.wf()
                            && 0 < targets@[x].health by {
                            if x < j {
                                assert(targets@[x] == ts0[x]);
                            } else {
                                assert(targets@[x] == ts0[x + 1]);
                            }
                        }
                    }
                }
                Some(t.id)
            } else {
                let updated = TargetEntry { id: t.id, hitbox: t.hitbox, health: t.health - 1 };
                targets.remove(j);
                targets.insert(j, updated);
                proof {
                    assert(targets@ =~= ts0.update(j as int, updated));
                    assert(targets@ == resolve_one(ts0, r));
                    assert(targets_wf(targets@)) by {
                        assert forall|x: int|
                            0 <= x < targets@.len() implies (#[trigger] targets@[x]).hitbox.wf()
                            && 0 < targets@[x].health by {
                            if x != j {
                                assert(targets@[x] == ts0[x]);
                            }
                        }
                    }
                }
                Some(t.id)
            }
        },
    }
}

/// Health is monotonically non-increasing and destruction is terminal:
/// every target surviving a resolution pass is one of the old targets,
/// with the same handle and hitbox and with no more health than before —
/// a pass never adds a target, heals one, or revives a removed one.
pub proof fn lemma_health_never_increases(ts: Seq<TargetEntry>, r: Ray3)
    ensures
        resolve_one(ts, r).len() <= ts.len(),
        forall|x: int|
            0 <= x < resolve_one(ts, r).len() ==> exists|y: int|
                0 <= y < ts.len() && (#[trigger] resolve_one(ts, r)[x]).id == ts[y].id
                    && resolve_one(ts, r)[x].hitbox == ts[y].hitbox && resolve_one(ts, r)[x].health
                    <= ts[y].health,
{
    let out = resolve_one(ts, r);
    lemma_nearest_hit_selected(ts, r, ts.len() as int);
    match best_hit_idx(ts, r) {
        None => {
            assert forall|x: int| 0 <= x < out.len() implies exists|y: int|
                0 <= y < ts.len() && (#[trigger] out[x]).id == ts[y].id && out[x].hitbox == ts[y].hitbox
                && out[x].health <= ts[y].health by {
                assert(out[x] == ts[x]);
            }
        },
        Some(j) => {
            if ts[j].health <= 1 {
                assert forall|x: int| 0 <= x < out.len() implies exists|y: int|
                    0 <= y < ts.len() && (#[trigger] out[x]).id == ts[y].id && out[x].hitbox == ts[y].hitbox
                    && out[x].health <= ts[y].health by {
                    if x < j {
                        assert(out[x] == ts[x]);
                    } else {
                        assert(out[x] == ts[x + 1]);
                    }
                }
            } else {
                assert forall|x: int| 0 <= x < out.len() implies exists|y: int|
                    0 <= y < ts.len() && (#[trigger] out[x]).id == ts[y].id && out[x].hitbox == ts[y].hitbox
                    && out[x].health <= ts[y].health by {
                    if x == j {
                        assert(out[x].id == ts[x].id && out[x].hitbox == ts[x].hitbox
                            && out[x].health <= ts[x].health);
                    } else {
                        assert(out[x] == ts[x]);
                    }
                }
            }
        },
    }
}

/// One resolution pass preserves the handle invariant: surviving targets
/// keep their handles and their order.
proof fn lemma_resolve_one_ids(ts: Seq<TargetEntry>, r: Ray3, bound: u64)
    requires
        target_ids_ok(ts, bound),
    ensures
        target_ids_ok(resolve_one(ts, r), bound),
{
    let out = resolve_one(ts, r);
    lemma_nearest_hit_selected(ts, r, ts.len() as int);
    match best_hit_idx(ts, r) {
        None => {
        },
        Some(j) => {
            assert(0 <= j < ts.len());
            if ts[j].health <= 1 {
                assert forall|x: int, y: int| 0 <= x < y < out.len() implies (#[trigger] out[x]).id
                    < (#[trigger] out[y]).id by {
                    let xs: int = if x < j {
                        x
                    } else {
                        x + 1
                    };
                    let ys: int = if y < j {
                        y
                    } else {
                        y + 1
                    };
                    assert(out[x] == ts[xs] && out[y] == ts[ys]);
                }
                assert forall|x: int| 0 <= x < out.len() implies (#[trigger] out[x]).id < bound by {
                    if x < j {
                        assert(out[x] == ts[x]);
                    } else {
                        assert(out[x] == ts[x + 1]);
                    }
                }
            } else {
                assert forall|x: int, y: int| 0 <= x < y < out.len() implies (#[trigger] out[x]).id
                    < (#[trigger] out[y]).id by {
                    assert(out[x].id == ts[x].id && out[y].id == ts[y].id);
                }
                assert forall|x: int| 0 <= x < out.len() implies (#[trigger] out[x]).id < bound by {
                    assert(out[x].id == ts[x].id);
                }
            }
        },
    }
}

/// Resolve every pending ray, in creation order, against the live targets.
/// Each ray damages at most one target — its nearest — and every ray is
/// consumed: afterwards no ray remains, whether or not it struck anything.
pub fn hitline_system(world: &mut World)
    requires
        old(world).wf(),
    ensures
        final(world).wf(),
        final(world).rays@.len() == 0,
        final(world).targets@ == resolve_all(old(world).targets@, old(world).rays@),
        final(world).next_id == old(world).next_id,
{
    while world.rays.len() > 0
        invariant
            world.wf(),
            world.next_id == old(world).next_id,
            resolve_all(world.targets@, world.rays@) == resolve_all(
                old(world).targets@,
                old(world).rays@,
            ),
        decreases world.rays@.len(),
    {
        let ghost ts_pre = world.targets@;
        let ghost rays_pre = world.rays@;
        let ray_entry = world.rays.remove(0);
        resolve_ray(&mut world.targets, &ray_entry.ray);
        proof {
            assert(world.rays@ =~= rays_pre.subrange(1, rays_pre.len() as int));
            assert(world.targets@ == resolve_one(ts_pre, rays_pre[0].ray.0));
            lemma_resolve_one_ids(ts_pre, rays_pre[0].ray.0, world.next_id);
            assert(resolve_all(ts_pre, rays_pre) == resolve_all(world.targets@, world.rays@));
        }
    }
}

} // verus!
