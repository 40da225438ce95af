//! What holds of the boxes of the plane, whatever their corners.

use vstd::prelude::*;
use crate::plane::aabb::{Aabb, Normal};
use crate::plane::ray::{
    inside_at, is_steady, lemma_hits_bound_the_inside, lemma_hits_in_order,
    lemma_misses_iff_ray_outside, lemma_point_clears, lemma_slab_interval, ray_meets,
    within_cross, within_slab_at,
};
use crate::plane::slab::{
    all_parallel, clip_line, entry_axis, entry_param, exit_axis, exit_param, far_hit,
    high_crossing, is_flipped, is_parallel, lemma_crossings, lemma_deciding_axes, low_crossing,
    misses, near_hit, outside_slab, parallel_within,
};
use crate::plane::{Point, Vector, AXES};
use crate::scalar::{lemma_exact_quotient, lemma_floor_between, lemma_scaled_within, Ratio};

verus! {

/// The low face of `a` lies in the plane of the high face of `b` on some axis.
pub open spec fn rests_on(a: Aabb, b: Aabb) -> bool {
    exists|i: int| 0 <= i < AXES && a.mins.coord(i) == #[trigger] b.maxs.coord(i)
}

/// On every axis each box begins at or before the end of the other.
pub open spec fn meets(a: Aabb, b: Aabb) -> bool {
    forall|i: int|
        0 <= i < AXES ==> a.mins.coord(i) <= #[trigger] b.maxs.coord(i) && b.mins.coord(i)
            <= a.maxs.coord(i)
}

/// The overlap test gives the same answer both ways round, unless one box
/// passes it against the other while resting its low face on the other's
/// high face.
pub proof fn lemma_intersects_symmetric(a: Aabb, b: Aabb)
    requires
        !(a.intersects_spec(b) && rests_on(a, b)),
        !(b.intersects_spec(a) && rests_on(b, a)),
    ensures
        a.intersects_spec(b) == b.intersects_spec(a),
{
    if a.intersects_spec(b) && !b.intersects_spec(a) {
        lemma_intersects_one_way(a, b);
    }
    if b.intersects_spec(a) && !a.intersects_spec(b) {
        lemma_intersects_one_way(b, a);
    }
}

/// A box passes the overlap test against another that fails it in return
/// exactly when it passes while resting its low face on the other's high face.
pub proof fn lemma_intersects_one_way(a: Aabb, b: Aabb)
    ensures
        (a.intersects_spec(b) && !b.intersects_spec(a)) <==> (a.intersects_spec(b) && rests_on(
            a,
            b,
        )),
{
    if a.intersects_spec(b) {
        if !b.intersects_spec(a) {
            if a.mins.x == b.maxs.x {
                assert(a.mins.coord(0) == b.maxs.coord(0));
            } else {
                assert(a.mins.coord(1) == b.maxs.coord(1));
            }
        }
        if rests_on(a, b) {
            let i = choose|i: int| 0 <= i < AXES && a.mins.coord(i) == #[trigger] b.maxs.coord(i);
            assert(!(b.maxs.coord(i) > a.mins.coord(i)));
        }
    }
}

/// Two boxes that touch, the high face of `a` on the low face of `b` on axis
/// `i`, and that meet on the other axes: `a` does not overlap `b`, and yet
/// their intersection, taken either way round, is a box, without width on
/// axis `i`.
pub proof fn lemma_touching(a: Aabb, b: Aabb, i: int)
    requires
        a.is_ordered(),
        b.is_ordered(),
        0 <= i < AXES,
        a.maxs.coord(i) == b.mins.coord(i),
        meets(a, b),
    ensures
        !a.intersects_spec(b),
        a.intersection_spec(b) is Some,
        a.intersection_spec(b)->0.maxs.coord(i) - a.intersection_spec(b)->0.mins.coord(i) == 0,
        a.intersection_spec(b)->0.extents_spec().coord(i) == 0,
        b.intersection_spec(a) == a.intersection_spec(b),
{
    assert(a.mins.coord(0) <= b.maxs.coord(0) && b.mins.coord(0) <= a.maxs.coord(0));
    assert(a.mins.coord(1) <= b.maxs.coord(1) && b.mins.coord(1) <= a.maxs.coord(1));
}

/// The intersection of two boxes, where there is one, lies within both.
pub proof fn lemma_intersection_contained(a: Aabb, b: Aabb)
    ensures
        a.intersection_spec(b) matches Some(c) ==> a.contains_spec(c) && b.contains_spec(c),
{
}

/// Intersecting does not depend on the order of the two boxes.
pub proof fn lemma_intersection_commutes(a: Aabb, b: Aabb)
    ensures
        a.intersection_spec(b) == b.intersection_spec(a),
{
}

/// Intersecting with the box that reaches over the whole lattice changes
/// nothing.
pub proof fn lemma_intersection_identity(a: Aabb)
    requires
        a.is_ordered(),
    ensures
        Aabb::new_invalid_spec().intersection_spec(a) == Some(a),
        Aabb::new_invalid_spec().contains_spec(a),
{
}

/// Every box contains itself.
pub proof fn lemma_contains_reflexive(a: Aabb)
    ensures
        a.contains_spec(a),
{
}

/// Two boxes that contain each other are equal.
pub proof fn lemma_contains_antisymmetric(a: Aabb, b: Aabb)
    requires
        a.contains_spec(b),
        b.contains_spec(a),
    ensures
        a == b,
{
}

/// Containment carries over: what lies within a box lies within any box
/// that contains it.
pub proof fn lemma_contains_transitive(a: Aabb, b: Aabb, c: Aabb)
    requires
        a.contains_spec(b),
        b.contains_spec(c),
    ensures
        a.contains_spec(c),
{
}

/// Twice the half extents fall short of the extents by less than one
/// fixed-point unit on each axis, and by nothing where the extent is even.
pub proof fn lemma_half_extents_doubled(a: Aabb)
    ensures
        forall|i: int|
            0 <= i < AXES ==> 0 <= a.extents_spec().coord(i) - 2
                * #[trigger] a.half_extents_spec().coord(i) <= 1,
        forall|i: int|
            0 <= i < AXES && a.extents_spec().coord(i) % 2 == 0 ==> 2
                * #[trigger] a.half_extents_spec().coord(i) == a.extents_spec().coord(i),
{
}

/// The center of a box whose corners are in order lies between them.
pub proof fn lemma_center_within(a: Aabb)
    requires
        a.is_ordered(),
    ensures
        forall|i: int|
            0 <= i < AXES ==> a.mins.coord(i) <= #[trigger] a.center_spec().coord(i)
                <= a.maxs.coord(i),
{
}

/// A line whose origin lies outside the slab of some axis, and which on that
/// axis does not move towards the box, misses the box.
pub proof fn lemma_pointing_away_misses(aabb: Aabb, origin: Point, dir: Vector, i: int)
    requires
        aabb.is_ordered(),
        0 <= i < AXES,
        (origin.coord(i) < aabb.mins.coord(i) && dir.coord(i) <= 0) || (origin.coord(i)
            > aabb.maxs.coord(i) && dir.coord(i) >= 0),
    ensures
        clip_line(aabb, origin, dir) is None,
{
    assert(aabb.mins.coord(i) <= aabb.maxs.coord(i));
    if is_parallel(dir, i) {
        assert(outside_slab(aabb, origin, i));
    } else {
        let lo = aabb.mins.coord(i) - origin.coord(i);
        let hi = aabb.maxs.coord(i) - origin.coord(i);
        let low = low_crossing(aabb, origin, dir, i);
        let high = high_crossing(aabb, origin, dir, i);
        lemma_crossings(aabb, origin, dir, i);
        assert(low.num < 0 && high.num < 0);
        assert(exit_param(aabb, origin, dir, i).lt(Ratio::zero_spec()));
    }
}

/// Some point of the segment from `pa` to `pb` lies in the box.
pub open spec fn segment_meets(aabb: Aabb, pa: Point, pb: Point) -> bool {
    exists|n: int, d: int|
        d > 0 && 0 <= n <= d && #[trigger] inside_at(aabb, pa, pa.displacement_to_spec(pb), n, d)
}

/// Some point of the line through `pa` and `pb` that lies beyond `pb` lies in
/// the box.
pub open spec fn meets_beyond(aabb: Aabb, pa: Point, pb: Point) -> bool {
    exists|n: int, d: int|
        d > 0 && n > d && #[trigger] inside_at(aabb, pa, pa.displacement_to_spec(pb), n, d)
}

/// A segment of steady direction that lies wholly outside the box is clipped
/// to nothing, unless the box lies on its line beyond its end.
pub proof fn lemma_clip_segment_outside(aabb: Aabb, pa: Point, pb: Point)
    requires
        aabb.is_ordered(),
        is_steady(pa.displacement_to_spec(pb)),
        !segment_meets(aabb, pa, pb),
        !meets_beyond(aabb, pa, pb),
    ensures
        aabb.clip_segment_spec(pa, pb) is None,
{
    let ab = pa.displacement_to_spec(pb);
    lemma_misses_iff_ray_outside(aabb, pa, ab);
    if ray_meets(aabb, pa, ab) {
        let (n, d) = choose|n: int, d: int| d > 0 && n >= 0 && #[trigger] inside_at(aabb, pa, ab, n, d);
        if n <= d {
            assert(segment_meets(aabb, pa, pb));
        } else {
            assert(meets_beyond(aabb, pa, pb));
        }
    }
}

/// A segment that starts in the box is clipped to a segment with the same
/// start.
pub proof fn lemma_clip_segment_keeps_start(aabb: Aabb, pa: Point, pb: Point)
    requires
        aabb.is_ordered(),
        aabb.holds(pa),
    ensures
        aabb.clip_segment_spec(pa, pb) is Some,
        aabb.clip_segment_spec(pa, pb)->0.a == pa,
{
    let ab = pa.displacement_to_spec(pb);
    let n = AXES as int;
    assert forall|i: int| 0 <= i < AXES implies #[trigger] within_slab_at(aabb, pa, ab, i, 0, 1) by {
        assert(!outside_slab(aabb, pa, i));
    }
    assert(parallel_within(aabb, pa, ab, n));
    lemma_point_clears(aabb, pa, ab, 0, 1);
    let near = near_hit(aabb, pa, ab, n).0;
    if !all_parallel(ab, n) {
        lemma_deciding_axes(aabb, pa, ab, AXES as nat);
        let a = entry_axis(aabb, pa, ab, n);
        lemma_crossings(aabb, pa, ab, a);
        assert(within_cross(entry_param(aabb, pa, ab, a), 0, 1, exit_param(aabb, pa, ab, a)));
        assert(near.num <= 0);
    }
    let t = near.clamp_unit_spec();
    assert(t.num == 0 && t.den > 0);
    assert(ab.x * t.num == 0 && ab.y * t.num == 0) by (nonlinear_arith)
        requires
            t.num == 0,
    ;
    assert(0int / (t.den as int) == 0) by (nonlinear_arith)
        requires
            t.den > 0,
    ;
}

/// A segment that ends in the box, and that starts within the slabs it is
/// taken as parallel to, is clipped to a segment with the same end.
pub proof fn lemma_clip_segment_keeps_end(aabb: Aabb, pa: Point, pb: Point)
    requires
        aabb.is_ordered(),
        aabb.holds(pb),
        parallel_within(aabb, pa, pa.displacement_to_spec(pb), AXES as int),
    ensures
        aabb.clip_segment_spec(pa, pb) is Some,
        aabb.clip_segment_spec(pa, pb)->0.b == pb,
{
    let ab = pa.displacement_to_spec(pb);
    let n = AXES as int;
    assert forall|i: int| 0 <= i < AXES implies #[trigger] within_slab_at(aabb, pa, ab, i, 1, 1) by {
        assert(!outside_slab(aabb, pb, i));
    }
    lemma_point_clears(aabb, pa, ab, 1, 1);
    let far = far_hit(aabb, pa, ab, n).0;
    if !all_parallel(ab, n) {
        lemma_deciding_axes(aabb, pa, ab, AXES as nat);
        let b = exit_axis(aabb, pa, ab, n);
        lemma_crossings(aabb, pa, ab, b);
        assert(within_cross(entry_param(aabb, pa, ab, b), 1, 1, exit_param(aabb, pa, ab, b)));
        assert(far.num >= far.den);
    }
    let t = far.clamp_unit_spec();
    assert(t.num == t.den && t.den > 0);
    lemma_exact_quotient(ab.x as int, t.den as int);
    lemma_exact_quotient(ab.y as int, t.den as int);
}

/// The face of the box through which a line of direction `dir` leaves the
/// slab of axis `i`: the high face if it moves up the axis, the low face if
/// it moves down.
pub open spec fn exit_face(aabb: Aabb, dir: Vector, i: int) -> int {
    if dir.coord(i) > 0 {
        aabb.maxs.coord(i)
    } else {
        aabb.mins.coord(i)
    }
}

/// The face of the box through which a line of direction `dir` enters the
/// slab of axis `i`: the low face if it moves up the axis, the high face if
/// it moves down.
pub open spec fn entry_face(aabb: Aabb, dir: Vector, i: int) -> int {
    if dir.coord(i) > 0 {
        aabb.mins.coord(i)
    } else {
        aabb.maxs.coord(i)
    }
}

/// At its exit from the slab of axis `i` the line is on the exit face.
proof fn lemma_exit_on_face(aabb: Aabb, origin: Point, dir: Vector, i: int)
    requires
        aabb.mins.coord(i) <= aabb.maxs.coord(i),
        !is_parallel(dir, i),
    ensures
        origin.coord(i) + (dir.coord(i) * exit_param(aabb, origin, dir, i).num) / (exit_param(
            aabb,
            origin,
            dir,
            i,
        ).den as int) == exit_face(aabb, dir, i),
{
    let lo = aabb.mins.coord(i) - origin.coord(i);
    let hi = aabb.maxs.coord(i) - origin.coord(i);
    let dc = dir.coord(i);
    let low = low_crossing(aabb, origin, dir, i);
    let high = high_crossing(aabb, origin, dir, i);
    let x = exit_param(aabb, origin, dir, i);
    lemma_crossings(aabb, origin, dir, i);
    lemma_flip_follows_direction(aabb, origin, dir, i);
    if dc > 0 {
        assert(x == high && high.num == hi && high.den == dc);
        lemma_exact_quotient(hi, dc);
    } else {
        assert(low.num == -lo && low.den == -dc && high.num == -hi && high.den == -dc);
        assert(x.num == -lo && x.den == -dc);
        assert(dc * (-lo) == (-dc) * lo) by (nonlinear_arith);
        lemma_exact_quotient(lo, -dc);
    }
}

/// At its entry into the slab of axis `i` the line is on the entry face.
proof fn lemma_entry_on_face(aabb: Aabb, origin: Point, dir: Vector, i: int)
    requires
        aabb.mins.coord(i) <= aabb.maxs.coord(i),
        !is_parallel(dir, i),
    ensures
        origin.coord(i) + (dir.coord(i) * entry_param(aabb, origin, dir, i).num) / (entry_param(
            aabb,
            origin,
            dir,
            i,
        ).den as int) == entry_face(aabb, dir, i),
{
    let lo = aabb.mins.coord(i) - origin.coord(i);
    let hi = aabb.maxs.coord(i) - origin.coord(i);
    let dc = dir.coord(i);
    let low = low_crossing(aabb, origin, dir, i);
    let high = high_crossing(aabb, origin, dir, i);
    let e = entry_param(aabb, origin, dir, i);
    lemma_crossings(aabb, origin, dir, i);
    lemma_flip_follows_direction(aabb, origin, dir, i);
    if dc > 0 {
        assert(e == low && low.num == lo && low.den == dc);
        lemma_exact_quotient(lo, dc);
    } else {
        assert(low.num == -lo && low.den == -dc && high.num == -hi && high.den == -dc);
        assert(e.num == -hi && e.den == -dc);
        assert(dc * (-hi) == (-dc) * hi) by (nonlinear_arith);
        lemma_exact_quotient(hi, -dc);
    }
}

/// A point of the line within the slab of axis `i`, rounded down to the
/// lattice, is within the slab still.
proof fn lemma_rounded_within(aabb: Aabb, origin: Point, dir: Vector, i: int, t: Ratio)
    requires
        t.wf(),
        within_slab_at(aabb, origin, dir, i, t.num as int, t.den as int),
    ensures
        aabb.mins.coord(i) <= origin.coord(i) + (dir.coord(i) * t.num) / (t.den as int)
            <= aabb.maxs.coord(i),
{
    let d = t.den as int;
    let n = dir.coord(i) * t.num;
    let o = origin.coord(i);
    let lo = aabb.mins.coord(i) - o;
    let hi = aabb.maxs.coord(i) - o;
    assert(d * lo <= n <= d * hi) by (nonlinear_arith)
        requires
            d * aabb.mins.coord(i) <= d * o + t.num * dir.coord(i) <= d * aabb.maxs.coord(i),
            lo == aabb.mins.coord(i) - o,
            hi == aabb.maxs.coord(i) - o,
            n == dir.coord(i) * t.num,
    ;
    lemma_floor_between(n, d, lo, hi);
}

/// A segment that starts in the box and ends outside the slab of an axis
/// along which it moves is cut where its line leaves the box: the new end
/// lies on the exit face of the axis that decides the far hit, and within
/// the slab of every axis along which the segment moves.
pub proof fn lemma_clip_segment_cuts_end(aabb: Aabb, pa: Point, pb: Point, k: int)
    requires
        aabb.is_ordered(),
        aabb.holds(pa),
        0 <= k < AXES,
        !is_parallel(pa.displacement_to_spec(pb), k),
        outside_slab(aabb, pb, k),
    ensures
        aabb.clip_segment_spec(pa, pb) is Some,
        aabb.clip_segment_spec(pa, pb)->0.a == pa,
        ({
            let ab = pa.displacement_to_spec(pb);
            let b = exit_axis(aabb, pa, ab, AXES as int);
            let end = aabb.clip_segment_spec(pa, pb)->0.b;
            &&& 0 <= b < AXES
            &&& end.coord(b) == exit_face(aabb, ab, b)
            &&& forall|i: int|
                0 <= i < AXES && !is_parallel(ab, i) ==> aabb.mins.coord(i) <= #[trigger] end.coord(
                    i,
                ) <= aabb.maxs.coord(i)
        }),
{
    let ab = pa.displacement_to_spec(pb);
    let n = AXES as int;
    lemma_clip_segment_keeps_start(aabb, pa, pb);
    assert forall|i: int| 0 <= i < AXES implies #[trigger] within_slab_at(aabb, pa, ab, i, 0, 1) by {
        assert(!outside_slab(aabb, pa, i));
    }
    assert(parallel_within(aabb, pa, ab, n));
    lemma_point_clears(aabb, pa, ab, 0, 1);
    assert(!all_parallel(ab, n));
    lemma_deciding_axes(aabb, pa, ab, AXES as nat);
    let b = exit_axis(aabb, pa, ab, n);
    let far = exit_param(aabb, pa, ab, b);
    let xk = exit_param(aabb, pa, ab, k);
    let ek = entry_param(aabb, pa, ab, k);
    lemma_crossings(aabb, pa, ab, b);
    lemma_crossings(aabb, pa, ab, k);
    assert(aabb.mins.coord(k) <= aabb.maxs.coord(k));
    assert(aabb.mins.coord(b) <= aabb.maxs.coord(b));
    // the end lies beyond the exit of slab k
    assert(!within_slab_at(aabb, pa, ab, k, 1, 1));
    lemma_slab_interval(aabb, pa, ab, k, 1, 1);
    assert(within_cross(ek, 0, 1, xk));
    assert(xk.num < xk.den);
    assert(far.le(xk));
    assert(far.num < far.den) by (nonlinear_arith)
        requires
            far.num * xk.den <= xk.num * far.den,
            xk.num < xk.den,
            xk.den > 0,
            far.den > 0,
    ;
    assert(within_cross(entry_param(aabb, pa, ab, b), 0, 1, far));
    assert(far.num >= 0);
    assert(far.clamp_unit_spec() == far);
    assert(far_hit(aabb, pa, ab, n).0 == far);
    let end = aabb.clip_segment_spec(pa, pb)->0.b;
    assert(end == pa.advanced_spec(ab, far));
    assert forall|i: int| 0 <= i < AXES && !is_parallel(ab, i) implies aabb.mins.coord(i)
        <= #[trigger] end.coord(i) <= aabb.maxs.coord(i) && end.coord(i) == pa.coord(i) + (
    ab.coord(i) * far.num) / (far.den as int) by {
        let e = entry_param(aabb, pa, ab, i);
        let x = exit_param(aabb, pa, ab, i);
        lemma_crossings(aabb, pa, ab, i);
        assert(aabb.mins.coord(i) <= aabb.maxs.coord(i));
        assert(within_cross(e, 0, 1, x));
        assert(far.le(x));
        assert(e.num * far.den <= far.num * e.den) by (nonlinear_arith)
            requires
                e.num <= 0,
                far.num >= 0,
                e.den > 0,
                far.den > 0,
        ;
        lemma_slab_interval(aabb, pa, ab, i, far.num as int, far.den as int);
        lemma_rounded_within(aabb, pa, ab, i, far);
    }
    lemma_exit_on_face(aabb, pa, ab, b);
    assert(end.coord(b) == pa.coord(b) + (ab.coord(b) * far.num) / (far.den as int));
}

/// A segment that ends in the box and starts outside the slab of an axis
/// along which it moves, while within the slabs it is taken as parallel to,
/// is cut where its line enters the box: the new start lies on the entry
/// face of the axis that decides the near hit, and within the slab of every
/// axis along which the segment moves.
pub proof fn lemma_clip_segment_cuts_start(aabb: Aabb, pa: Point, pb: Point, k: int)
    requires
        aabb.is_ordered(),
        aabb.holds(pb),
        parallel_within(aabb, pa, pa.displacement_to_spec(pb), AXES as int),
        0 <= k < AXES,
        !is_parallel(pa.displacement_to_spec(pb), k),
        outside_slab(aabb, pa, k),
    ensures
        aabb.clip_segment_spec(pa, pb) is Some,
        aabb.clip_segment_spec(pa, pb)->0.b == pb,
        ({
            let ab = pa.displacement_to_spec(pb);
            let a = entry_axis(aabb, pa, ab, AXES as int);
            let start = aabb.clip_segment_spec(pa, pb)->0.a;
            &&& 0 <= a < AXES
            &&& start.coord(a) == entry_face(aabb, ab, a)
            &&& forall|i: int|
                0 <= i < AXES && !is_parallel(ab, i) ==> aabb.mins.coord(i)
                    <= #[trigger] start.coord(i) <= aabb.maxs.coord(i)
        }),
{
    let ab = pa.displacement_to_spec(pb);
    let n = AXES as int;
    lemma_clip_segment_keeps_end(aabb, pa, pb);
    assert forall|i: int| 0 <= i < AXES implies #[trigger] within_slab_at(aabb, pa, ab, i, 1, 1) by {
        assert(!outside_slab(aabb, pb, i));
    }
    lemma_point_clears(aabb, pa, ab, 1, 1);
    assert(!all_parallel(ab, n));
    lemma_deciding_axes(aabb, pa, ab, AXES as nat);
    let a = entry_axis(aabb, pa, ab, n);
    let near = entry_param(aabb, pa, ab, a);
    let xk = exit_param(aabb, pa, ab, k);
    let ek = entry_param(aabb, pa, ab, k);
    lemma_crossings(aabb, pa, ab, a);
    lemma_crossings(aabb, pa, ab, k);
    assert(aabb.mins.coord(k) <= aabb.maxs.coord(k));
    assert(aabb.mins.coord(a) <= aabb.maxs.coord(a));
    // the start lies before the entry into slab k
    assert(!within_slab_at(aabb, pa, ab, k, 0, 1));
    lemma_slab_interval(aabb, pa, ab, k, 0, 1);
    assert(within_cross(ek, 1, 1, xk));
    assert(ek.num > 0);
    assert(ek.le(near));
    assert(near.num > 0) by (nonlinear_arith)
        requires
            ek.num * near.den <= near.num * ek.den,
            ek.num > 0,
            ek.den > 0,
            near.den > 0,
    ;
    assert(within_cross(near, 1, 1, exit_param(aabb, pa, ab, a)));
    assert(near.num <= near.den);
    assert(near.clamp_unit_spec() == near);
    assert(near_hit(aabb, pa, ab, n).0 == near);
    let start = aabb.clip_segment_spec(pa, pb)->0.a;
    assert(start == pa.advanced_spec(ab, near));
    assert forall|i: int| 0 <= i < AXES && !is_parallel(ab, i) implies aabb.mins.coord(i)
        <= #[trigger] start.coord(i) <= aabb.maxs.coord(i) && start.coord(i) == pa.coord(i) + (
    ab.coord(i) * near.num) / (near.den as int) by {
        let e = entry_param(aabb, pa, ab, i);
        let x = exit_param(aabb, pa, ab, i);
        lemma_crossings(aabb, pa, ab, i);
        assert(aabb.mins.coord(i) <= aabb.maxs.coord(i));
        assert(within_cross(e, 1, 1, x));
        assert(e.le(near));
        assert(near.num * x.den <= x.num * near.den) by (nonlinear_arith)
            requires
                near.num <= near.den,
                x.den <= x.num,
                near.num > 0,
                x.den > 0,
                near.den > 0,
        ;
        lemma_slab_interval(aabb, pa, ab, i, near.num as int, near.den as int);
        lemma_rounded_within(aabb, pa, ab, i, near);
    }
    lemma_entry_on_face(aabb, pa, ab, a);
    assert(start.coord(a) == pa.coord(a) + (ab.coord(a) * near.num) / (near.den as int));
}

/// The coordinate on axis `i` of the lattice point at or just below
/// `origin + t * dir`.
pub open spec fn coord_along(origin: Point, dir: Vector, t: Ratio, i: int) -> int {
    origin.coord(i) + (dir.coord(i) * t.num) / (t.den as int)
}

/// The coordinate of the face that a normal along an axis points out of: the
/// high face for a positive normal, the low face for a negative one.
pub open spec fn face_behind(aabb: Aabb, axis: int, positive: bool) -> int {
    if positive {
        aabb.maxs.coord(axis)
    } else {
        aabb.mins.coord(axis)
    }
}

/// The normals of the two hits point outward: a hit that is not tied lies on
/// the face of the box that its normal points out of.
pub proof fn lemma_normals_point_outward(aabb: Aabb, origin: Point, dir: Vector)
    requires
        aabb.is_ordered(),
        clip_line(aabb, origin, dir) is Some,
    ensures
        ({
            let (near, far) = clip_line(aabb, origin, dir)->0;
            &&& near.1 matches Normal::Axis { axis, positive } ==> 0 <= axis < AXES && coord_along(
                origin,
                dir,
                near.0,
                axis as int,
            ) == face_behind(aabb, axis as int, positive)
            &&& far.1 matches Normal::Axis { axis, positive } ==> 0 <= axis < AXES && coord_along(
                origin,
                dir,
                far.0,
                axis as int,
            ) == face_behind(aabb, axis as int, positive)
        }),
{
    let n = AXES as int;
    if !all_parallel(dir, n) {
        lemma_deciding_axes(aabb, origin, dir, AXES as nat);
        let a = entry_axis(aabb, origin, dir, n);
        let b = exit_axis(aabb, origin, dir, n);
        assert(aabb.mins.coord(a) <= aabb.maxs.coord(a));
        assert(aabb.mins.coord(b) <= aabb.maxs.coord(b));
        lemma_entry_on_face(aabb, origin, dir, a);
        lemma_exit_on_face(aabb, origin, dir, b);
        lemma_flip_follows_direction(aabb, origin, dir, a);
        lemma_flip_follows_direction(aabb, origin, dir, b);
    }
}

/// On an axis on which the box has its corners in order, the line meets the
/// high face first only if it moves down the axis, and it does so then
/// unless the slab has no width.
proof fn lemma_flip_follows_direction(aabb: Aabb, origin: Point, dir: Vector, i: int)
    requires
        aabb.mins.coord(i) <= aabb.maxs.coord(i),
        !is_parallel(dir, i),
    ensures
        is_flipped(aabb, origin, dir, i) <==> dir.coord(i) < 0 && aabb.mins.coord(i)
            < aabb.maxs.coord(i),
{
    let lo = aabb.mins.coord(i) - origin.coord(i);
    let hi = aabb.maxs.coord(i) - origin.coord(i);
    let dc = dir.coord(i);
    lemma_crossings(aabb, origin, dir, i);
    if dc > 0 {
        assert(hi * dc < lo * dc <==> hi < lo) by (nonlinear_arith)
            requires
                dc > 0,
        ;
    } else {
        assert((-hi) * (-dc) < (-lo) * (-dc) <==> lo < hi) by (nonlinear_arith)
            requires
                dc < 0,
        ;
    }
}

/// A point of the line that lies in the box, rounded down to the lattice,
/// lies in the box still.
proof fn lemma_rounded_inside(aabb: Aabb, origin: Point, dir: Vector, t: Ratio)
    requires
        t.wf(),
        inside_at(aabb, origin, dir, t.num as int, t.den as int),
        i32::MIN <= coord_along(origin, dir, t, 0) <= i32::MAX,
        i32::MIN <= coord_along(origin, dir, t, 1) <= i32::MAX,
    ensures
        aabb.holds(origin.advanced_spec(dir, t)),
{
    let p = origin.advanced_spec(dir, t);
    assert forall|i: int| 0 <= i < AXES implies !#[trigger] outside_slab(aabb, p, i) by {
        assert(within_slab_at(aabb, origin, dir, i, t.num as int, t.den as int));
        lemma_rounded_within(aabb, origin, dir, i, t);
        assert(p.coord(i) == coord_along(origin, dir, t, i));
    }
}

/// A segment of steady direction that has a point in the box is clipped to a
/// segment that lies in the box.
pub proof fn lemma_clipped_segment_inside(aabb: Aabb, pa: Point, pb: Point)
    requires
        aabb.is_ordered(),
        is_steady(pa.displacement_to_spec(pb)),
        segment_meets(aabb, pa, pb),
    ensures
        aabb.clip_segment_spec(pa, pb) is Some,
        aabb.holds(aabb.clip_segment_spec(pa, pb)->0.a),
        aabb.holds(aabb.clip_segment_spec(pa, pb)->0.b),
{
    let ab = pa.displacement_to_spec(pb);
    let n = AXES as int;
    let zero = Ratio::zero_spec();
    let one = Ratio::one_spec();
    let (wn, wd) = choose|wn: int, wd: int|
        wd > 0 && 0 <= wn <= wd && #[trigger] inside_at(aabb, pa, ab, wn, wd);
    lemma_misses_iff_ray_outside(aabb, pa, ab);
    assert(ray_meets(aabb, pa, ab));
    lemma_hits_in_order(aabb, pa, ab);
    let (near, far) = clip_line(aabb, pa, ab)->0;
    let t_near = near.0.clamp_unit_spec();
    let t_far = far.0.clamp_unit_spec();
    if all_parallel(ab, n) {
        // the segment is a point, and the point lies in the box
        assert(is_parallel(ab, 0) && is_parallel(ab, 1));
        assert(ab.coord(0) == 0 && ab.coord(1) == 0);
        assert(t_near == zero && t_far == one);
        assert(aabb.holds(pa)) by {
            assert forall|i: int| 0 <= i < AXES implies !#[trigger] outside_slab(aabb, pa, i) by {
                assert(is_parallel(ab, i));
            }
        }
        assert(ab.x * 0 == 0 && ab.y * 0 == 0 && 0 * 1 == 0);
        assert(pa.advanced_spec(ab, zero) == pa);
        assert(pa.advanced_spec(ab, one) == pa);
    } else {
        lemma_deciding_axes(aabb, pa, ab, AXES as nat);
        let a = entry_axis(aabb, pa, ab, n);
        let b = exit_axis(aabb, pa, ab, n);
        lemma_crossings(aabb, pa, ab, a);
        lemma_crossings(aabb, pa, ab, b);
        // the point of the segment in the box lies between the hits
        assert forall|i: int| 0 <= i < AXES && !is_parallel(ab, i) implies #[trigger] within_slab_at(
            aabb,
            pa,
            ab,
            i,
            wn,
            wd,
        ) by {}
        assert(parallel_within(aabb, pa, ab, n));
        lemma_point_clears(aabb, pa, ab, wn, wd);
        assert(within_cross(entry_param(aabb, pa, ab, a), wn, wd, exit_param(aabb, pa, ab, a)));
        assert(within_cross(entry_param(aabb, pa, ab, b), wn, wd, exit_param(aabb, pa, ab, b)));
        // so the near hit is not beyond the end, and both clamped parameters
        // lie between the hits
        assert(near.0.num <= near.0.den) by (nonlinear_arith)
            requires
                near.0.num * wd <= wn * near.0.den,
                0 <= wn <= wd,
                wd > 0,
                near.0.den > 0,
        ;
        assert(near.0.le(t_near) && t_near.le(far.0) && t_near.wf() && t_near.in_unit());
        assert(near.0.le(t_far) && t_far.le(far.0) && t_far.wf() && t_far.in_unit());
        lemma_hits_bound_the_inside(aabb, pa, ab, t_near);
        lemma_hits_bound_the_inside(aabb, pa, ab, t_far);
        lemma_scaled_within(ab.x as int, t_near.num as int, t_near.den as int);
        lemma_scaled_within(ab.y as int, t_near.num as int, t_near.den as int);
        lemma_scaled_within(ab.x as int, t_far.num as int, t_far.den as int);
        lemma_scaled_within(ab.y as int, t_far.num as int, t_far.den as int);
        lemma_rounded_inside(aabb, pa, ab, t_near);
        lemma_rounded_inside(aabb, pa, ab, t_far);
    }
}

} // verus!
