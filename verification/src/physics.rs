//! Geometry primitives and the ray/axis-aligned-box slab test.
//!
//! Coordinates are integers (an embedder maps its own units onto them, e.g.
//! as a fixed-point scale), and ray distances are exact rationals, so the
//! intersection test is exact: no rounding, no division by zero.
//!
//! The slab test intersects, axis by axis, the interval of ray distances at
//! which the ray lies between that axis's two bounding planes. An axis whose
//! direction component is zero imposes no constraint: a ray parallel to a
//! slab is assumed within bounds on that axis, a deliberate approximation
//! preserved from the design. The ray distance is measured in units of the
//! direction vector's own length; the direction need not be normalized.

use crate::rat::{fle, lemma_fle_total, lemma_fle_trans, Rat};
use vstd::prelude::*;

verus! {

/// A 3-vector with integer components.
#[derive(Clone, Copy, Debug, PartialEq, Eq, Hash, Structural)]
pub struct Vec3i {
    pub x: i32,
    pub y: i32,
    pub z: i32,
}

/// The component of `v` on axis `i` (0 = x, 1 = y, 2 = z), as a mathematical
/// integer.
pub open spec fn axis(v: Vec3i, i: int) -> int {
    if i == 0 {
        v.x as int
    } else if i == 1 {
        v.y as int
    } else {
        v.z as int
    }
}

/// An axis-aligned box: minimum corner `origin` and non-negative side
/// lengths `extent`.
#[allow(non_camel_case_types)]
#[derive(Clone, Copy, Debug, PartialEq, Eq, Structural)]
pub struct AA_Hitbox {
    pub origin: Vec3i,
    pub extent: Vec3i,
}

impl AA_Hitbox {
    /// Side lengths are non-negative and the maximum corner stays
    /// representable.
    pub open spec fn wf(self) -> bool {
        &&& 0 <= self.extent.x
        &&& 0 <= self.extent.y
        &&& 0 <= self.extent.z
        &&& self.origin.x + self.extent.x <= i32::MAX
        &&& self.origin.y + self.extent.y <= i32::MAX
        &&& self.origin.z + self.extent.z <= i32::MAX
    }

    /// The box's minimum and maximum corners.
    pub fn get_minmax(&self) -> (r: (Vec3i, Vec3i))
        requires
            self.wf(),
        ensures
            r.0 == self.origin,
            r.1.x == self.origin.x + self.extent.x,
            r.1.y == self.origin.y + self.extent.y,
            r.1.z == self.origin.z + self.extent.z,
    {
        (
            self.origin,
            Vec3i {
                x: self.origin.x + self.extent.x,
                y: self.origin.y + self.extent.y,
                z: self.origin.z + self.extent.z,
            },
        )
    }
}

/// A ray: an origin point and a direction vector (not necessarily
/// normalized; distances are relative to this vector's own scale).
#[derive(Clone, Copy, Debug, PartialEq, Eq, Structural)]
pub struct Ray3 {
    pub origin: Vec3i,
    pub direction: Vec3i,
}

/// One fired shot's ray.
#[derive(Clone, Copy, Debug, PartialEq, Eq, Structural)]
pub struct Hitray(pub Ray3);

/// The interval of ray distances at which a ray meets a box.
#[derive(Clone, Copy, Debug, PartialEq, Eq, Structural)]
pub enum HitSpan {
    /// Every axis was parallel to its slab: no axis constrained the ray, so
    /// every distance along the line counts as inside.
    Whole,
    /// The ray is inside the box exactly for distances in
    /// `[entry, exit]`.
    Span { entry: Rat, exit: Rat },
}

/// Whether the point at distance `p / q` along the ray lies between the two
/// planes of axis `i`: `lo <= o + (p/q) * d <= hi`, cross-multiplied by
/// `q > 0`.
pub open spec fn slab_at(b: AA_Hitbox, r: Ray3, i: int, p: int, q: int) -> bool {
    let o = axis(r.origin, i);
    let d = axis(r.direction, i);
    let lo = axis(b.origin, i);
    let hi = lo + axis(b.extent, i);
    lo * q <= o * q + d * p && o * q + d * p <= hi * q
}

/// Whether distance `p / q` lies inside the slabs of every constrained axis
/// among the first `n`.
pub open spec fn prefix_hits(b: AA_Hitbox, r: Ray3, n: int, p: int, q: int) -> bool {
    forall|j: int|
        0 <= j < n && axis(r.direction, j) != 0 ==> #[trigger] slab_at(b, r, j, p, q)
}

/// Whether the point at distance `p / q` along the ray lies inside the box
/// on every constrained axis (axes with a zero direction component impose no
/// constraint).
pub open spec fn hits_at(b: AA_Hitbox, r: Ray3, p: int, q: int) -> bool {
    prefix_hits(b, r, 3, p, q)
}

/// The lower end of axis `i`'s distance interval, as a fraction with a
/// positive denominator. Scalar form: box planes `lo`/`hi`, ray origin `o`,
/// direction `d != 0`.
pub open spec fn sspan_lo(lo: int, hi: int, o: int, d: int) -> (int, int) {
    if d > 0 {
        (lo - o, d)
    } else {
        (o - hi, -d)
    }
}

/// The upper end of axis `i`'s distance interval, as a fraction with a
/// positive denominator.
pub open spec fn sspan_hi(lo: int, hi: int, o: int, d: int) -> (int, int) {
    if d > 0 {
        (hi - o, d)
    } else {
        (o - lo, -d)
    }
}

/// Axis `i`'s lower distance bound.
pub open spec fn span_lo(b: AA_Hitbox, r: Ray3, i: int) -> (int, int) {
    let lo = axis(b.origin, i);
    sspan_lo(lo, lo + axis(b.extent, i), axis(r.origin, i), axis(r.direction, i))
}

/// Axis `i`'s upper distance bound.
pub open spec fn span_hi(b: AA_Hitbox, r: Ray3, i: int) -> (int, int) {
    let lo = axis(b.origin, i);
    sspan_hi(lo, lo + axis(b.extent, i), axis(r.origin, i), axis(r.direction, i))
}

/// The larger of two fractions (the right one when equal).
pub open spec fn fmax(a: (int, int), b: (int, int)) -> (int, int) {
    if fle(a, b) {
        b
    } else {
        a
    }
}

/// The smaller of two fractions (the left one when equal).
pub open spec fn fmin(a: (int, int), b: (int, int)) -> (int, int) {
    if fle(a, b) {
        a
    } else {
        b
    }
}

/// Folds axis `i` into the running entry/exit interval: an unconstrained
/// axis changes nothing; a constrained axis narrows the interval to its own
/// distance bounds.
pub open spec fn merge_axis(
    acc: Option<((int, int), (int, int))>,
    b: AA_Hitbox,
    r: Ray3,
    i: int,
) -> Option<((int, int), (int, int))> {
    if axis(r.direction, i) == 0 {
        acc
    } else {
        match acc {
            None => Some((span_lo(b, r, i), span_hi(b, r, i))),
            Some((l, h)) => Some((fmax(l, span_lo(b, r, i)), fmin(h, span_hi(b, r, i)))),
        }
    }
}

/// The slab fold over all three axes: `None` when no axis constrains the
/// ray, otherwise the accumulated entry/exit distance pair.
pub open spec fn slab_fold(b: AA_Hitbox, r: Ray3) -> Option<((int, int), (int, int))> {
    merge_axis(merge_axis(merge_axis(None, b, r, 0), b, r, 1), b, r, 2)
}

/// Whether the slab test reports an intersection: it does unless the folded
/// interval is empty.
pub open spec fn slab_reports_hit(b: AA_Hitbox, r: Ray3) -> bool {
    match slab_fold(b, r) {
        None => true,
        Some((l, h)) => fle(l, h),
    }
}

/// One axis's slab membership at distance `p / q` is exactly the distance
/// lying between that axis's two bounds.
proof fn lemma_axis_span(b: AA_Hitbox, r: Ray3, i: int, p: int, q: int)
    requires
        0 <= i < 3,
        axis(r.direction, i) != 0,
        0 < q,
    ensures
        slab_at(b, r, i, p, q) <==> (fle(span_lo(b, r, i), (p, q)) && fle(
            (p, q),
            span_hi(b, r, i),
        )),
{
    let o = axis(r.origin, i);
    let d = axis(r.direction, i);
    let lo = axis(b.origin, i);
    let hi = lo + axis(b.extent, i);
    if d > 0 {
        assert((lo * q <= o * q + d * p) == ((lo - o) * q <= p * d)) by (nonlinear_arith);
        assert((o * q + d * p <= hi * q) == (p * d <= (hi - o) * q)) by (nonlinear_arith);
    } else {
        assert((o * q + d * p <= hi * q) == ((o - hi) * q <= p * (-d))) by (nonlinear_arith);
        assert((lo * q <= o * q + d * p) == (p * (-d) <= (o - lo) * q)) by (nonlinear_arith);
    }
}

/// Being at most a maximum of two fractions splits into both comparisons.
proof fn lemma_fmax_le(a: (int, int), b: (int, int), t: (int, int))
    requires
        0 < a.1,
        0 < b.1,
        0 < t.1,
    ensures
        fle(fmax(a, b), t) <==> (fle(a, t) && fle(b, t)),
{
    lemma_fle_total(a, b);
    if fle(a, b) {
        if fle(b, t) {
            lemma_fle_trans(a, b, t);
        }
    } else {
        if fle(a, t) {
            lemma_fle_trans(b, a, t);
        }
    }
}

/// Being at least a minimum of two fractions splits into both comparisons.
proof fn lemma_fmin_ge(a: (int, int), b: (int, int), t: (int, int))
    requires
        0 < a.1,
        0 < b.1,
        0 < t.1,
    ensures
        fle(t, fmin(a, b)) <==> (fle(t, a) && fle(t, b)),
{
    lemma_fle_total(a, b);
    if fle(a, b) {
        if fle(t, a) {
            lemma_fle_trans(t, a, b);
        }
    } else {
        if fle(t, b) {
            lemma_fle_trans(t, b, a);
        }
    }
}

/// Meeting the first `n + 1` slabs is meeting the first `n` and, when axis
/// `n` is constrained, its slab too.
proof fn lemma_prefix_split(b: AA_Hitbox, r: Ray3, n: int, p: int, q: int)
    requires
        0 <= n,
    ensures
        prefix_hits(b, r, n + 1, p, q) == (prefix_hits(b, r, n, p, q) && (axis(r.direction, n)
            != 0 ==> slab_at(b, r, n, p, q))),
{
    if prefix_hits(b, r, n + 1, p, q) {
        assert forall|j: int| 0 <= j < n && axis(r.direction, j) != 0 implies #[trigger] slab_at(
            b,
            r,
            j,
            p,
            q,
        ) by {
            assert(0 <= j < n + 1);
        }
        if axis(r.direction, n) != 0 {
            assert(slab_at(b, r, n, p, q));
        }
    }
    if prefix_hits(b, r, n, p, q) && (axis(r.direction, n) != 0 ==> slab_at(b, r, n, p, q)) {
        assert forall|j: int| 0 <= j < n + 1 && axis(r.direction, j) != 0 implies #[trigger] slab_at(
            b,
            r,
            j,
            p,
            q,
        ) by {
            if j < n {
                assert(slab_at(b, r, j, p, q));
            }
        }
        assert(prefix_hits(b, r, n + 1, p, q));
    }
}

/// What the running interval means after folding the first `n` axes:
/// nothing yet constrained the ray, or the interval brackets exactly the
/// distances meeting every constrained slab so far.
spec fn fold_inv(b: AA_Hitbox, r: Ray3, acc: Option<((int, int), (int, int))>, n: int) -> bool {
    match acc {
        None => forall|j: int| 0 <= j < n ==> axis(r.direction, j) == 0,
        Some((l, h)) => 0 < l.1 && 0 < h.1 && forall|p: int, q: int|
            0 < q ==> (#[trigger] prefix_hits(b, r, n, p, q) <==> (fle(l, (p, q)) && fle(
                (p, q),
                h,
            ))),
    }
}

/// Folding one more axis preserves the interval's meaning.
proof fn lemma_merge_step(b: AA_Hitbox, r: Ray3, acc: Option<((int, int), (int, int))>, n: int)
    requires
        0 <= n < 3,
        fold_inv(b, r, acc, n),
    ensures
        fold_inv(b, r, merge_axis(acc, b, r, n), n + 1),
{
    let d = axis(r.direction, n);
    if d == 0 {
        match acc {
            None => {
                assert forall|j: int| 0 <= j < n + 1 implies axis(r.direction, j) == 0 by {
                    if j < n {
                        assert(axis(r.direction, j) == 0);
                    }
                }
            },
            Some((l, h)) => {
                assert forall|p: int, q: int| 0 < q implies (#[trigger] prefix_hits(
                    b,
                    r,
                    n + 1,
                    p,
                    q,
                ) <==> (fle(l, (p, q)) && fle((p, q), h))) by {
                    lemma_prefix_split(b, r, n, p, q);
                    assert(prefix_hits(b, r, n, p, q) <==> (fle(l, (p, q)) && fle((p, q), h)));
                }
            },
        }
    } else {
        let slo = span_lo(b, r, n);
        let shi = span_hi(b, r, n);
        assert(0 < slo.1 && 0 < shi.1);
        match acc {
            None => {
                assert forall|p: int, q: int| 0 < q implies (#[trigger] prefix_hits(
                    b,
                    r,
                    n + 1,
                    p,
                    q,
                ) <==> (fle(slo, (p, q)) && fle((p, q), shi))) by {
                    lemma_prefix_split(b, r, n, p, q);
                    lemma_axis_span(b, r, n, p, q);
                    assert(prefix_hits(b, r, n, p, q)) by {
                        assert forall|j: int|
                            0 <= j < n && axis(r.direction, j) != 0 implies #[trigger] slab_at(
                            b,
                            r,
                            j,
                            p,
                            q,
                        ) by {
                            assert(axis(r.direction, j) == 0);
                        }
                    }
                }
            },
            Some((l, h)) => {
                let l2 = fmax(l, slo);
                let h2 = fmin(h, shi);
                assert(0 < l2.1 && 0 < h2.1);
                assert forall|p: int, q: int| 0 < q implies (#[trigger] prefix_hits(
                    b,
                    r,
                    n + 1,
                    p,
                    q,
                ) <==> (fle(l2, (p, q)) && fle((p, q), h2))) by {
                    lemma_prefix_split(b, r, n, p, q);
                    lemma_axis_span(b, r, n, p, q);
                    assert(prefix_hits(b, r, n, p, q) <==> (fle(l, (p, q)) && fle((p, q), h)));
                    lemma_fmax_le(l, slo, (p, q));
                    lemma_fmin_ge(h, shi, (p, q));
                }
            },
        }
    }
}

/// The slab fold's meaning: `None` means no axis constrained the ray;
/// otherwise the folded pair brackets exactly the distances that meet every
/// constrained slab.
pub proof fn lemma_fold_props(b: AA_Hitbox, r: Ray3)
    ensures
        match slab_fold(b, r) {
            None => forall|i: int| 0 <= i < 3 ==> axis(r.direction, i) == 0,
            Some((l, h)) => 0 < l.1 && 0 < h.1 && forall|p: int, q: int|
                0 < q ==> (#[trigger] hits_at(b, r, p, q) <==> (fle(l, (p, q)) && fle((p, q), h))),
        },
{
    let a0: Option<((int, int), (int, int))> = None;
    assert(fold_inv(b, r, a0, 0));
    lemma_merge_step(b, r, a0, 0);
    let a1 = merge_axis(a0, b, r, 0);
    lemma_merge_step(b, r, a1, 1);
    let a2 = merge_axis(a1, b, r, 1);
    lemma_merge_step(b, r, a2, 2);
    match slab_fold(b, r) {
        None => {
        },
        Some((l, h)) => {
            assert forall|p: int, q: int| 0 < q implies (#[trigger] hits_at(b, r, p, q) <==> (fle(
                l,
                (p, q),
            ) && fle((p, q), h))) by {
                assert(prefix_hits(b, r, 3, p, q) <==> (fle(l, (p, q)) && fle((p, q), h)));
            }
        },
    }
}

/// The two ends of one axis's distance interval, ordered, with a positive
/// denominator.
fn axis_span(lo: i32, hi: i32, o: i32, d: i32) -> (r: (Rat, Rat))
    requires
        d != 0,
    ensures
        r.0@ == sspan_lo(lo as int, hi as int, o as int, d as int),
        r.1@ == sspan_hi(lo as int, hi as int, o as int, d as int),
{
    let lo64: i64 = lo as i64;
    let hi64: i64 = hi as i64;
    let o64: i64 = o as i64;
    if d > 0 {
        (Rat { num: lo64 - o64, den: d as i64 }, Rat { num: hi64 - o64, den: d as i64 })
    } else {
        (Rat { num: o64 - hi64, den: -(d as i64) }, Rat { num: o64 - lo64, den: -(d as i64) })
    }
}

/// The larger of two distances.
fn rat_max(a: Rat, b: Rat) -> (r: Rat)
    ensures
        r@ == fmax(a@, b@),
{
    if a.le(&b) {
        b
    } else {
        a
    }
}

/// The smaller of two distances.
fn rat_min(a: Rat, b: Rat) -> (r: Rat)
    ensures
        r@ == fmin(a@, b@),
{
    if a.le(&b) {
        a
    } else {
        b
    }
}

/// The view of the running exec interval as the spec fold's value.
spec fn acc_view(acc: Option<(Rat, Rat)>) -> Option<((int, int), (int, int))> {
    match acc {
        None => None,
        Some((l, h)) => Some((l@, h@)),
    }
}

/// Slab-method ray/box intersection: the entry and exit distances along the
/// ray, or `None` when the constrained axes' distance intervals do not
/// overlap. Total: every finite input has a defined result.
pub fn check_collision(hitbox: &AA_Hitbox, hitray: &Hitray) -> (res: Option<HitSpan>)
    requires
        hitbox.wf(),
    ensures
        match slab_fold(*hitbox, hitray.0) {
            None => res == Some(HitSpan::Whole),
            Some((l, h)) => {
                if fle(l, h) {
                    res matches Some(HitSpan::Span { entry, exit }) && entry@ == l && exit@ == h
                } else {
                    res is None
                }
            },
        },
        (res is Some) <==> exists|p: int, q: int|
            0 < q && #[trigger] hits_at(*hitbox, hitray.0, p, q),
        res matches Some(HitSpan::Span { entry, exit }) ==> entry.wf() && exit.wf() && forall|
            p: int,
            q: int,
        |
            0 < q ==> (#[trigger] hits_at(*hitbox, hitray.0, p, q) <==> (fle(entry@, (p, q)) && fle(
                (p, q),
                exit@,
            ))),
        res == Some(HitSpan::Whole) ==> forall|i: int|
            0 <= i < 3 ==> axis(hitray.0.direction, i) == 0,
{
    let (bmin, bmax) = hitbox.get_minmax();
    let ray = &hitray.0;
    let mut acc: Option<(Rat, Rat)> = None;

    if ray.direction.x != 0 {
        let (t1, t2) = axis_span(bmin.x, bmax.x, ray.origin.x, ray.direction.x);
        acc = match acc {
            None => Some((t1, t2)),
            Some((l, h)) => Some((rat_max(l, t1), rat_min(h, t2))),
        };
    }
    proof {
        assert(acc_view(acc) == merge_axis(None, *hitbox, hitray.0, 0));
    }
    let ghost f0: Option<((int, int), (int, int))> = acc_view(acc);

    if ray.direction.y != 0 {
        let (t1, t2) = axis_span(bmin.y, bmax.y, ray.origin.y, ray.direction.y);
        acc = match acc {
            None => Some((t1, t2)),
            Some((l, h)) => Some((rat_max(l, t1), rat_min(h, t2))),
        };
    }
    proof {
        assert(acc_view(acc) == merge_axis(f0, *hitbox, hitray.0, 1));
    }
    let ghost f1: Option<((int, int), (int, int))> = acc_view(acc);

    if ray.direction.z != 0 {
        let (t1, t2) = axis_span(bmin.z, bmax.z, ray.origin.z, ray.direction.z);
        acc = match acc {
            None => Some((t1, t2)),
            Some((l, h)) => Some((rat_max(l, t1), rat_min(h, t2))),
        };
    }
    proof {
        assert(acc_view(acc) == merge_axis(f1, *hitbox, hitray.0, 2));
        assert(acc_view(acc) == slab_fold(*hitbox, hitray.0));
        lemma_fold_props(*hitbox, hitray.0);
        let b = *hitbox;
        let r = hitray.0;
        match slab_fold(b, r) {
            None => {
                assert(hits_at(b, r, 0, 1)) by {
                    assert forall|j: int|
                        0 <= j < 3 && axis(r.direction, j) != 0 implies #[trigger] slab_at(
                        b,
                        r,
                        j,
                        0,
                        1,
                    ) by {
                        assert(axis(r.direction, j) == 0);
                    }
                }
            },
            Some((l, h)) => {
                if fle(l, h) {
                    assert((l.0, l.1) == l);
                    assert(fle(l, l));
                    assert(hits_at(b, r, l.0, l.1));
                } else {
                    assert forall|p: int, q: int|
                        !(0 < q && #[trigger] hits_at(b, r, p, q)) by {
                        if 0 < q && hits_at(b, r, p, q) {
                            lemma_fle_trans(l, (p, q), h);
                        }
                    }
                }
            },
        }
    }

    match acc {
        None => Some(HitSpan::Whole),
        Some((lo, hi)) => {
            if lo.le(&hi) {
                Some(HitSpan::Span { entry: lo, exit: hi })
            } else {
                None
            }
        },
    }
}

/// A ray whose origin lies strictly inside the box is reported as a hit,
/// and the reported span contains distance zero: entry is at most `0` and
/// exit at least `0`.
pub proof fn lemma_origin_inside_reports_hit(b: AA_Hitbox, r: Ray3)
    requires
        forall|i: int|
            0 <= i < 3 ==> axis(b.origin, i) < axis(r.origin, i) && axis(r.origin, i) < axis(
                b.origin,
                i,
            ) + axis(b.extent, i),
    ensures
        slab_reports_hit(b, r),
        match slab_fold(b, r) {
            None => true,
            Some((l, h)) => fle(l, (0, 1)) && fle((0, 1), h),
        },
{
    assert(hits_at(b, r, 0, 1)) by {
        assert forall|j: int|
            0 <= j < 3 && axis(r.direction, j) != 0 implies #[trigger] slab_at(b, r, j, 0, 1) by {
            let o = axis(r.origin, j);
            let lo = axis(b.origin, j);
            let hi = lo + axis(b.extent, j);
            assert(lo < o && o < hi);
            assert(lo * 1 == lo && o * 1 == o && hi * 1 == hi);
            assert(axis(r.direction, j) * 0 == 0);
        }
    }
    lemma_fold_props(b, r);
    match slab_fold(b, r) {
        None => {
        },
        Some((l, h)) => {
            assert(fle(l, (0, 1)) && fle((0, 1), h));
            lemma_fle_trans(l, (0, 1), h);
        },
    }
}

/// A ray is reported as a miss when no distance along its line — forward or
/// backward — lies inside every constrained slab. (Pointing away from the
/// box alone does not suffice: the bare slab test also accepts spans that
/// lie behind the ray's origin, and an axis the ray is parallel to imposes
/// no constraint even when the origin is outside the box on that axis.)
pub proof fn lemma_miss_when_no_distance_meets(b: AA_Hitbox, r: Ray3)
    requires
        forall|p: int, q: int| 0 < q ==> !#[trigger] hits_at(b, r, p, q),
    ensures
        !slab_reports_hit(b, r),
{
    lemma_fold_props(b, r);
    match slab_fold(b, r) {
        None => {
            assert(hits_at(b, r, 0, 1)) by {
                assert forall|j: int|
                    0 <= j < 3 && axis(r.direction, j) != 0 implies #[trigger] slab_at(
                    b,
                    r,
                    j,
                    0,
                    1,
                ) by {
                    assert(axis(r.direction, j) == 0);
                }
            }
            assert(false);
        },
        Some((l, h)) => {
            if fle(l, h) {
                assert((l.0, l.1) == l);
                assert(fle(l, l));
                assert(hits_at(b, r, l.0, l.1));
                assert(false);
            }
        },
    }
}

} // verus!
