//! What clipping means: the parameters between the two hits are those at
//! which the line lies in the box.

use vstd::prelude::*;
use crate::plane::{Point, Vector, AXES};
use crate::plane::aabb::Aabb;
use crate::plane::slab::{
    all_parallel, clip_line, entry_axis, entry_param, exit_axis, exit_param, far_hit,
    high_crossing, is_flipped, is_parallel, lemma_crossings, lemma_deciding_axes, low_crossing,
    misses, near_hit, outside_slab, parallel_within,
};
use crate::scalar::Ratio;

verus! {

/// On axis `i`, the point `origin + (n / d) * dir` lies within the slab.
pub open spec fn within_slab_at(
    aabb: Aabb,
    origin: Point,
    dir: Vector,
    i: int,
    n: int,
    d: int,
) -> bool {
    d * aabb.mins.coord(i) <= d * origin.coord(i) + n * dir.coord(i) <= d * aabb.maxs.coord(i)
}

/// The point `origin + (n / d) * dir` lies in the box.
pub open spec fn inside_at(aabb: Aabb, origin: Point, dir: Vector, n: int, d: int) -> bool {
    forall|i: int| 0 <= i < AXES ==> #[trigger] within_slab_at(aabb, origin, dir, i, n, d)
}

/// Some point `origin + t * dir` with `t >= 0` lies in the box.
pub open spec fn ray_meets(aabb: Aabb, origin: Point, dir: Vector) -> bool {
    exists|n: int, d: int| d > 0 && n >= 0 && #[trigger] inside_at(aabb, origin, dir, n, d)
}

/// Each component of the direction is zero or at least the parallel epsilon
/// in size: what is taken as parallel is parallel.
pub open spec fn is_steady(dir: Vector) -> bool {
    forall|i: int| 0 <= i < AXES ==> dir.coord(i) == 0 || !#[trigger] is_parallel(dir, i)
}

/// Cross-multiplied bounds of a slab: with a positive direction component
/// the line is within the slab from the low crossing to the high crossing.
proof fn lemma_slab_forward(
    lo: int,
    hi: int,
    dc: int,
    tn: int,
    td: int,
    mins: int,
    o: int,
    maxs: int,
)
    by (nonlinear_arith)
    requires
        dc > 0,
        td > 0,
        lo == mins - o,
        hi == maxs - o,
    ensures
        (lo * td <= tn * dc && tn * dc <= hi * td) <==> (td * mins <= td * o + tn * dc && td * o
            + tn * dc <= td * maxs),
        hi * dc < lo * dc <==> hi < lo,
{
}

/// Cross-multiplied bounds of a slab: with a negative direction component
/// the line is within the slab from the high crossing to the low crossing.
proof fn lemma_slab_backward(
    lo: int,
    hi: int,
    dc: int,
    tn: int,
    td: int,
    mins: int,
    o: int,
    maxs: int,
)
    by (nonlinear_arith)
    requires
        dc < 0,
        td > 0,
        lo == mins - o,
        hi == maxs - o,
    ensures
        ((-hi) * td <= tn * (-dc) && tn * (-dc) <= (-lo) * td) <==> (td * mins <= td * o + tn * dc
            && td * o + tn * dc <= td * maxs),
        (-hi) * (-dc) < (-lo) * (-dc) <==> lo < hi,
{
}

/// `lo <= tn / td <= hi`, cross-multiplied.
pub open spec fn within_cross(lo: Ratio, tn: int, td: int, hi: Ratio) -> bool {
    lo.num * td <= tn * lo.den && tn * hi.den <= hi.num * td
}

/// On an axis to which the direction is not parallel and on which the box
/// has its corners in order, the line lies within the slab exactly from the
/// entry to the exit.
pub proof fn lemma_slab_interval(aabb: Aabb, origin: Point, dir: Vector, i: int, tn: int, td: int)
    requires
        aabb.mins.coord(i) <= aabb.maxs.coord(i),
        !is_parallel(dir, i),
        td > 0,
    ensures
        within_slab_at(aabb, origin, dir, i, tn, td) <==> within_cross(
            entry_param(aabb, origin, dir, i),
            tn,
            td,
            exit_param(aabb, origin, dir, i),
        ),
{
    let mins = aabb.mins.coord(i);
    let maxs = aabb.maxs.coord(i);
    let o = origin.coord(i);
    let dc = dir.coord(i);
    let lo = mins - o;
    let hi = maxs - o;
    let low = low_crossing(aabb, origin, dir, i);
    let high = high_crossing(aabb, origin, dir, i);
    lemma_crossings(aabb, origin, dir, i);
    if dc > 0 {
        lemma_slab_forward(lo, hi, dc, tn, td, mins, o, maxs);
        assert(low.num == lo && low.den == dc);
        assert(high.num == hi && high.den == dc);
        assert(!is_flipped(aabb, origin, dir, i));
    } else {
        lemma_slab_backward(lo, hi, dc, tn, td, mins, o, maxs);
        assert(low.num == -lo && low.den == -dc);
        assert(high.num == -hi && high.den == -dc);
        assert(is_flipped(aabb, origin, dir, i) <==> lo < hi);
    }
}

/// The parameter lies between the entry and the exit of every slab to which
/// the direction is not parallel.
pub open spec fn between_crossings(aabb: Aabb, origin: Point, dir: Vector, t: Ratio) -> bool {
    forall|i: int|
        0 <= i < AXES && !is_parallel(dir, i) ==> (#[trigger] entry_param(aabb, origin, dir, i)).le(
            t,
        ) && t.le(exit_param(aabb, origin, dir, i))
}

/// For a steady direction, a point of the line lies in the box exactly when
/// the origin is within the slabs the line is parallel to and the parameter
/// is between the entry and the exit of every other slab.
pub proof fn lemma_inside_by_slabs(aabb: Aabb, origin: Point, dir: Vector, t: Ratio)
    requires
        aabb.is_ordered(),
        is_steady(dir),
        t.wf(),
    ensures
        inside_at(aabb, origin, dir, t.num as int, t.den as int) <==> parallel_within(
            aabb,
            origin,
            dir,
            AXES as int,
        ) && between_crossings(aabb, origin, dir, t),
{
    let n = t.num as int;
    let d = t.den as int;
    assert forall|i: int| 0 <= i < AXES implies (#[trigger] within_slab_at(
        aabb,
        origin,
        dir,
        i,
        n,
        d,
    ) <==> if is_parallel(dir, i) {
        !outside_slab(aabb, origin, i)
    } else {
        entry_param(aabb, origin, dir, i).le(t) && t.le(exit_param(aabb, origin, dir, i))
    }) by {
        assert(aabb.mins.coord(i) <= aabb.maxs.coord(i));
        if is_parallel(dir, i) {
            assert(dir.coord(i) == 0);
            let mins = aabb.mins.coord(i);
            let maxs = aabb.maxs.coord(i);
            let o = origin.coord(i);
            assert((d * mins <= d * o <==> mins <= o) && (d * o <= d * maxs <==> o <= maxs))
                by (nonlinear_arith)
                requires
                    d > 0,
            ;
            assert(n * dir.coord(i) == 0) by (nonlinear_arith)
                requires
                    dir.coord(i) == 0,
            ;
        } else {
            lemma_slab_interval(aabb, origin, dir, i, n, d);
        }
    }
    if inside_at(aabb, origin, dir, n, d) {
        assert forall|i: int| 0 <= i < AXES && is_parallel(dir, i) implies !#[trigger] outside_slab(
            aabb,
            origin,
            i,
        ) by {
            assert(within_slab_at(aabb, origin, dir, i, n, d));
        }
        assert forall|i: int| 0 <= i < AXES && !is_parallel(dir, i) implies (
        #[trigger] entry_param(aabb, origin, dir, i)).le(t) && t.le(
            exit_param(aabb, origin, dir, i),
        ) by {
            assert(within_slab_at(aabb, origin, dir, i, n, d));
        }
    }
    if parallel_within(aabb, origin, dir, AXES as int) && between_crossings(aabb, origin, dir, t) {
        assert forall|i: int| 0 <= i < AXES implies #[trigger] within_slab_at(
            aabb,
            origin,
            dir,
            i,
            n,
            d,
        ) by {
            if is_parallel(dir, i) {
                assert(!outside_slab(aabb, origin, i));
            } else {
                assert(entry_param(aabb, origin, dir, i).le(t));
            }
        }
    }
}

/// Unless the direction is parallel to every slab, a parameter lies between
/// the entry and the exit of every slab exactly when it lies between the
/// near and the far hit.
pub proof fn lemma_between_hits(aabb: Aabb, origin: Point, dir: Vector, t: Ratio)
    requires
        !all_parallel(dir, AXES as int),
        t.wf(),
    ensures
        between_crossings(aabb, origin, dir, t) <==> near_hit(aabb, origin, dir, AXES as int).0.le(
            t,
        ) && t.le(far_hit(aabb, origin, dir, AXES as int).0),
{
    let n = AXES as int;
    lemma_deciding_axes(aabb, origin, dir, AXES as nat);
    let a = entry_axis(aabb, origin, dir, n);
    let b = exit_axis(aabb, origin, dir, n);
    let near = entry_param(aabb, origin, dir, a);
    let far = exit_param(aabb, origin, dir, b);
    lemma_crossings(aabb, origin, dir, a);
    lemma_crossings(aabb, origin, dir, b);
    if between_crossings(aabb, origin, dir, t) {
        assert(near.le(t));
        assert(entry_param(aabb, origin, dir, b).le(t) && t.le(far));
    }
    if near.le(t) && t.le(far) {
        assert forall|i: int| 0 <= i < AXES && !is_parallel(dir, i) implies (
        #[trigger] entry_param(aabb, origin, dir, i)).le(t) && t.le(
            exit_param(aabb, origin, dir, i),
        ) by {
            lemma_crossings(aabb, origin, dir, i);
            Ratio::lemma_le_le(entry_param(aabb, origin, dir, i), near, t);
            Ratio::lemma_le_le(t, far, exit_param(aabb, origin, dir, i));
        }
    }
}

/// For a box with its corners in order and a steady direction, the line
/// misses exactly when no point `origin + t * dir` with `t >= 0` lies in the
/// box.
pub proof fn lemma_misses_iff_ray_outside(aabb: Aabb, origin: Point, dir: Vector)
    requires
        aabb.is_ordered(),
        is_steady(dir),
    ensures
        misses(aabb, origin, dir, AXES as int) <==> !ray_meets(aabb, origin, dir),
        clip_line(aabb, origin, dir) is None <==> !ray_meets(aabb, origin, dir),
{
    let n = AXES as int;
    let zero = Ratio::zero_spec();
    if !misses(aabb, origin, dir, n) {
        // a point of the ray in the box: the origin, or the near hit
        assert(parallel_within(aabb, origin, dir, n));
        if all_parallel(dir, n) {
            lemma_inside_by_slabs(aabb, origin, dir, zero);
            assert(between_crossings(aabb, origin, dir, zero));
            assert(inside_at(aabb, origin, dir, 0, 1));
        } else {
            lemma_deciding_axes(aabb, origin, dir, AXES as nat);
            let a = entry_axis(aabb, origin, dir, n);
            let b = exit_axis(aabb, origin, dir, n);
            let near = entry_param(aabb, origin, dir, a);
            let far = exit_param(aabb, origin, dir, b);
            lemma_crossings(aabb, origin, dir, a);
            lemma_crossings(aabb, origin, dir, b);
            assert(!far.lt(zero));
            assert(!far.lt(near));
            let t = if near.lt(zero) {
                zero
            } else {
                near
            };
            assert(near.le(t) && t.le(far) && t.wf() && t.num >= 0);
            lemma_between_hits(aabb, origin, dir, t);
            lemma_inside_by_slabs(aabb, origin, dir, t);
            assert(inside_at(aabb, origin, dir, t.num as int, t.den as int));
        }
        assert(ray_meets(aabb, origin, dir));
    }
    if ray_meets(aabb, origin, dir) {
        let (tn, td) = choose|tn: int, td: int|
            td > 0 && tn >= 0 && #[trigger] inside_at(aabb, origin, dir, tn, td);
        assert forall|i: int| 0 <= i < AXES && is_parallel(dir, i) implies !#[trigger] outside_slab(
            aabb,
            origin,
            i,
        ) by {
            assert(within_slab_at(aabb, origin, dir, i, tn, td));
            let mins = aabb.mins.coord(i);
            let maxs = aabb.maxs.coord(i);
            let o = origin.coord(i);
            assert(dir.coord(i) == 0);
            assert(tn * dir.coord(i) == 0) by (nonlinear_arith)
                requires
                    dir.coord(i) == 0,
            ;
            assert((td * mins <= td * o <==> mins <= o) && (td * o <= td * maxs <==> o <= maxs))
                by (nonlinear_arith)
                requires
                    td > 0,
            ;
        }
        lemma_point_clears(aabb, origin, dir, tn, td);
    }
}

/// For a box with its corners in order and a steady direction that is not
/// parallel to every slab, the two hits bound the part of the line that lies
/// in the box: a point of the line lies in the box exactly when its
/// parameter lies between that of the near hit and that of the far hit.
pub proof fn lemma_hits_bound_the_inside(aabb: Aabb, origin: Point, dir: Vector, t: Ratio)
    requires
        aabb.is_ordered(),
        is_steady(dir),
        !all_parallel(dir, AXES as int),
        clip_line(aabb, origin, dir) is Some,
        t.wf(),
    ensures
        ({
            let (near, far) = clip_line(aabb, origin, dir)->0;
            inside_at(aabb, origin, dir, t.num as int, t.den as int) <==> near.0.le(t) && t.le(
                far.0,
            )
        }),
{
    lemma_inside_by_slabs(aabb, origin, dir, t);
    lemma_between_hits(aabb, origin, dir, t);
}

/// Where the line does not miss, the far hit lies neither before the origin
/// nor before the near hit.
pub proof fn lemma_hits_in_order(aabb: Aabb, origin: Point, dir: Vector)
    requires
        clip_line(aabb, origin, dir) is Some,
    ensures
        ({
            let (near, far) = clip_line(aabb, origin, dir)->0;
            &&& near.0.wf()
            &&& far.0.wf()
            &&& near.0.le(far.0)
            &&& Ratio::zero_spec().le(far.0)
        }),
{
    let n = AXES as int;
    if !all_parallel(dir, n) {
        lemma_deciding_axes(aabb, origin, dir, AXES as nat);
        let a = entry_axis(aabb, origin, dir, n);
        let b = exit_axis(aabb, origin, dir, n);
        lemma_crossings(aabb, origin, dir, a);
        lemma_crossings(aabb, origin, dir, b);
        assert(!exit_param(aabb, origin, dir, b).lt(Ratio::zero_spec()));
        assert(!exit_param(aabb, origin, dir, b).lt(entry_param(aabb, origin, dir, a)));
    }
}

/// A point `origin + (tn / td) * dir` with `tn / td >= 0` that lies within
/// every slab to which the direction is not parallel shows, where the origin
/// is within the others, that the line does not miss.
pub proof fn lemma_point_clears(aabb: Aabb, origin: Point, dir: Vector, tn: int, td: int)
    requires
        aabb.is_ordered(),
        td > 0,
        tn >= 0,
        parallel_within(aabb, origin, dir, AXES as int),
        forall|i: int|
            0 <= i < AXES && !is_parallel(dir, i) ==> #[trigger] within_slab_at(
                aabb,
                origin,
                dir,
                i,
                tn,
                td,
            ),
    ensures
        !misses(aabb, origin, dir, AXES as int),
        forall|i: int|
            0 <= i < AXES && !is_parallel(dir, i) ==> within_cross(
                #[trigger] entry_param(aabb, origin, dir, i),
                tn,
                td,
                exit_param(aabb, origin, dir, i),
            ),
{
    let n = AXES as int;
    let zero = Ratio::zero_spec();
    assert forall|i: int| 0 <= i < AXES && !is_parallel(dir, i) implies within_cross(
        #[trigger] entry_param(aabb, origin, dir, i),
        tn,
        td,
        exit_param(aabb, origin, dir, i),
    ) by {
        assert(within_slab_at(aabb, origin, dir, i, tn, td));
        lemma_crossings(aabb, origin, dir, i);
        lemma_slab_interval(aabb, origin, dir, i, tn, td);
    }
    assert forall|j: int| 0 <= j < n && !is_parallel(dir, j) implies !(#[trigger] exit_param(
        aabb,
        origin,
        dir,
        j,
    )).lt(zero) by {
        let x = exit_param(aabb, origin, dir, j);
        lemma_crossings(aabb, origin, dir, j);
        assert(within_cross(entry_param(aabb, origin, dir, j), tn, td, x));
        assert(x.num >= 0) by (nonlinear_arith)
            requires
                tn * x.den <= x.num * td,
                tn >= 0,
                td > 0,
                x.den > 0,
        ;
    }
    assert forall|i: int, j: int|
        0 <= i < n && 0 <= j < n && !is_parallel(dir, i) && !is_parallel(dir, j) implies !(
        #[trigger] exit_param(aabb, origin, dir, j)).lt(
        #[trigger] entry_param(aabb, origin, dir, i),
    ) by {
        let x = exit_param(aabb, origin, dir, j);
        let e = entry_param(aabb, origin, dir, i);
        lemma_crossings(aabb, origin, dir, i);
        lemma_crossings(aabb, origin, dir, j);
        assert(within_cross(e, tn, td, exit_param(aabb, origin, dir, i)));
        assert(within_cross(entry_param(aabb, origin, dir, j), tn, td, x));
        crate::scalar::lemma_cross_le_le(
            e.num as int,
            e.den as int,
            tn,
            td,
            x.num as int,
            x.den as int,
        );
    }
}

} // verus!
