//! The slab model of a line crossing a box: where the line enters and leaves
//! the slab of each axis, and which axis decides.

use vstd::prelude::*;
use crate::plane::{Point, Vector, AXES};
use crate::plane::aabb::{Aabb, Normal};
use crate::scalar::{Ratio, UNITS_PER_ONE};

verus! {

/// A direction component closer to zero than this is taken as parallel to the
/// slab: one hundredth of a unit of length.
pub const PARALLEL_EPSILON: i64 = 10;

/// The parallel epsilon is one hundredth of a unit of length.
pub proof fn lemma_epsilon_is_a_hundredth()
    ensures
        100 * PARALLEL_EPSILON == UNITS_PER_ONE,
{
}

/// The direction runs parallel to the slab of axis `i`.
pub open spec fn is_parallel(dir: Vector, i: int) -> bool {
    -PARALLEL_EPSILON < dir.coord(i) < PARALLEL_EPSILON
}

/// The origin lies outside the slab of axis `i`.
pub open spec fn outside_slab(aabb: Aabb, origin: Point, i: int) -> bool {
    origin.coord(i) < aabb.mins.coord(i) || origin.coord(i) > aabb.maxs.coord(i)
}

/// The parameter at which the line meets the plane of the low face on axis `i`.
pub open spec fn low_crossing(aabb: Aabb, origin: Point, dir: Vector, i: int) -> Ratio {
    Ratio::quotient(aabb.mins.coord(i) - origin.coord(i), dir.coord(i))
}

/// The parameter at which the line meets the plane of the high face on axis `i`.
pub open spec fn high_crossing(aabb: Aabb, origin: Point, dir: Vector, i: int) -> Ratio {
    Ratio::quotient(aabb.maxs.coord(i) - origin.coord(i), dir.coord(i))
}

/// The line meets the high face of axis `i` before the low face.
pub open spec fn is_flipped(aabb: Aabb, origin: Point, dir: Vector, i: int) -> bool {
    high_crossing(aabb, origin, dir, i).lt(low_crossing(aabb, origin, dir, i))
}

/// The parameter at which the line enters the slab of axis `i`.
pub open spec fn entry_param(aabb: Aabb, origin: Point, dir: Vector, i: int) -> Ratio {
    if is_flipped(aabb, origin, dir, i) {
        high_crossing(aabb, origin, dir, i)
    } else {
        low_crossing(aabb, origin, dir, i)
    }
}

/// The parameter at which the line leaves the slab of axis `i`.
pub open spec fn exit_param(aabb: Aabb, origin: Point, dir: Vector, i: int) -> Ratio {
    if is_flipped(aabb, origin, dir, i) {
        low_crossing(aabb, origin, dir, i)
    } else {
        high_crossing(aabb, origin, dir, i)
    }
}

/// The side identifier of axis `i`: `i + 1` when the line meets the low face
/// first, as it does travelling up the axis, and `-(i + 1)` when it meets
/// the high face first.
pub open spec fn side_of(aabb: Aabb, origin: Point, dir: Vector, i: int) -> isize {
    if is_flipped(aabb, origin, dir, i) {
        (-(i + 1)) as isize
    } else {
        (i + 1) as isize
    }
}

/// The direction runs parallel to every one of the first `n` slabs.
pub open spec fn all_parallel(dir: Vector, n: int) -> bool {
    forall|j: int| 0 <= j < n ==> #[trigger] is_parallel(dir, j)
}

/// On each of the first `n` axes to which the direction runs parallel, the
/// origin lies within the slab.
pub open spec fn parallel_within(aabb: Aabb, origin: Point, dir: Vector, n: int) -> bool {
    forall|j: int| 0 <= j < n && is_parallel(dir, j) ==> !#[trigger] outside_slab(aabb, origin, j)
}

/// The line misses the box, as far as the first `n` axes tell: it runs
/// parallel to a slab outside of it, or it leaves some slab before the
/// origin, or it leaves one slab before it enters another.
pub open spec fn misses(aabb: Aabb, origin: Point, dir: Vector, n: int) -> bool {
    ||| exists|j: int|
        0 <= j < n && is_parallel(dir, j) && #[trigger] outside_slab(aabb, origin, j)
    ||| exists|j: int|
        0 <= j < n && !is_parallel(dir, j) && (#[trigger] exit_param(aabb, origin, dir, j)).lt(
            Ratio::zero_spec(),
        )
    ||| exists|i: int, j: int|
        0 <= i < n && 0 <= j < n && !is_parallel(dir, i) && !is_parallel(dir, j) && (
        #[trigger] exit_param(aabb, origin, dir, j)).lt(#[trigger] entry_param(aabb, origin, dir, i))
}

/// Among the first `n` axes, axis `i` is the first of those whose slab the
/// line enters last.
pub open spec fn enters_last_at(aabb: Aabb, origin: Point, dir: Vector, n: int, i: int) -> bool {
    &&& 0 <= i < n
    &&& !is_parallel(dir, i)
    &&& forall|j: int|
        0 <= j < n && !is_parallel(dir, j) ==> (#[trigger] entry_param(aabb, origin, dir, j)).le(
            entry_param(aabb, origin, dir, i),
        )
    &&& forall|j: int|
        0 <= j < i && !is_parallel(dir, j) ==> (#[trigger] entry_param(aabb, origin, dir, j)).lt(
            entry_param(aabb, origin, dir, i),
        )
}

/// Among the first `n` axes, axis `i` is the first of those whose slab the
/// line leaves first.
pub open spec fn exits_first_at(aabb: Aabb, origin: Point, dir: Vector, n: int, i: int) -> bool {
    &&& 0 <= i < n
    &&& !is_parallel(dir, i)
    &&& forall|j: int|
        0 <= j < n && !is_parallel(dir, j) ==> exit_param(aabb, origin, dir, i).le(
            #[trigger] exit_param(aabb, origin, dir, j),
        )
    &&& forall|j: int|
        0 <= j < i && !is_parallel(dir, j) ==> exit_param(aabb, origin, dir, i).lt(
            #[trigger] exit_param(aabb, origin, dir, j),
        )
}

/// Among the first `n` axes, another slab than that of axis `i` is entered at
/// the same parameter: the line enters through an edge or a corner.
pub open spec fn entry_tied(aabb: Aabb, origin: Point, dir: Vector, n: int, i: int) -> bool {
    exists|j: int|
        0 <= j < n && j != i && !is_parallel(dir, j) && (#[trigger] entry_param(
            aabb,
            origin,
            dir,
            j,
        )).same(entry_param(aabb, origin, dir, i))
}

/// Among the first `n` axes, another slab than that of axis `i` is left at the
/// same parameter: the line leaves through an edge or a corner.
pub open spec fn exit_tied(aabb: Aabb, origin: Point, dir: Vector, n: int, i: int) -> bool {
    exists|j: int|
        0 <= j < n && j != i && !is_parallel(dir, j) && (#[trigger] exit_param(
            aabb,
            origin,
            dir,
            j,
        )).same(exit_param(aabb, origin, dir, i))
}

/// The near hit when axis `i` decides it: the entry parameter, the outward
/// normal of the face entered (or the reversed direction on a tie), and the
/// side identifier.
pub open spec fn near_hit_at(aabb: Aabb, origin: Point, dir: Vector, n: int, i: int) -> (
    Ratio,
    Normal,
    isize,
) {
    (
        entry_param(aabb, origin, dir, i),
        if entry_tied(aabb, origin, dir, n, i) {
            Normal::Reverse
        } else {
            Normal::Axis { axis: i as usize, positive: is_flipped(aabb, origin, dir, i) }
        },
        side_of(aabb, origin, dir, i),
    )
}

/// The far hit when axis `i` decides it: the exit parameter, the outward
/// normal of the face left (or the reversed direction on a tie), and the side
/// identifier.
pub open spec fn far_hit_at(aabb: Aabb, origin: Point, dir: Vector, n: int, i: int) -> (
    Ratio,
    Normal,
    isize,
) {
    (
        exit_param(aabb, origin, dir, i),
        if exit_tied(aabb, origin, dir, n, i) {
            Normal::Reverse
        } else {
            Normal::Axis { axis: i as usize, positive: !is_flipped(aabb, origin, dir, i) }
        },
        side_of(aabb, origin, dir, i),
    )
}

/// The axis that decides the near hit over the first `n` axes. It is
/// meaningful where the direction is not parallel to all of them.
pub open spec fn entry_axis(aabb: Aabb, origin: Point, dir: Vector, n: int) -> int {
    choose|i: int| enters_last_at(aabb, origin, dir, n, i)
}

/// The axis that decides the far hit over the first `n` axes. It is
/// meaningful where the direction is not parallel to all of them.
pub open spec fn exit_axis(aabb: Aabb, origin: Point, dir: Vector, n: int) -> int {
    choose|i: int| exits_first_at(aabb, origin, dir, n, i)
}

/// The near hit of the line over the first `n` axes. Where the direction is
/// parallel to all of them no face is crossed: the parameter is the least
/// ratio, the normal zero and the side 0.
pub open spec fn near_hit(aabb: Aabb, origin: Point, dir: Vector, n: int) -> (
    Ratio,
    Normal,
    isize,
) {
    if all_parallel(dir, n) {
        (Ratio::lowest_spec(), Normal::Zero, 0isize)
    } else {
        near_hit_at(aabb, origin, dir, n, entry_axis(aabb, origin, dir, n))
    }
}

/// The far hit of the line over the first `n` axes. Where the direction is
/// parallel to all of them no face is crossed: the parameter is the greatest
/// ratio, the normal zero and the side 0.
pub open spec fn far_hit(aabb: Aabb, origin: Point, dir: Vector, n: int) -> (
    Ratio,
    Normal,
    isize,
) {
    if all_parallel(dir, n) {
        (Ratio::highest_spec(), Normal::Zero, 0isize)
    } else {
        far_hit_at(aabb, origin, dir, n, exit_axis(aabb, origin, dir, n))
    }
}

/// What clipping the line `origin + t * dir` against the box gives: nothing
/// where the line misses, and the near and the far hit otherwise.
pub open spec fn clip_line(aabb: Aabb, origin: Point, dir: Vector) -> Option<
    ((Ratio, Normal, isize), (Ratio, Normal, isize)),
> {
    if misses(aabb, origin, dir, AXES as int) {
        None
    } else {
        Some((near_hit(aabb, origin, dir, AXES as int), far_hit(aabb, origin, dir, AXES as int)))
    }
}

/// At most one axis decides the near hit.
pub proof fn lemma_entry_axis_unique(
    aabb: Aabb,
    origin: Point,
    dir: Vector,
    n: int,
    i: int,
    j: int,
)
    requires
        enters_last_at(aabb, origin, dir, n, i),
        enters_last_at(aabb, origin, dir, n, j),
    ensures
        i == j,
{
    let ei = entry_param(aabb, origin, dir, i);
    let ej = entry_param(aabb, origin, dir, j);
    if i < j {
        assert(ei.lt(ej));
        assert(ej.le(ei));
    } else if j < i {
        assert(ej.lt(ei));
        assert(ei.le(ej));
    }
}

/// At most one axis decides the far hit.
pub proof fn lemma_exit_axis_unique(
    aabb: Aabb,
    origin: Point,
    dir: Vector,
    n: int,
    i: int,
    j: int,
)
    requires
        exits_first_at(aabb, origin, dir, n, i),
        exits_first_at(aabb, origin, dir, n, j),
    ensures
        i == j,
{
    let ei = exit_param(aabb, origin, dir, i);
    let ej = exit_param(aabb, origin, dir, j);
    if i < j {
        assert(ej.lt(ei));
        assert(ei.le(ej));
    } else if j < i {
        assert(ei.lt(ej));
        assert(ej.le(ei));
    }
}

/// The running near bound after the first `n` axes, taken one by one: its
/// parameter, its side identifier and whether a later slab tied with it.
pub open spec fn near_bound(aabb: Aabb, origin: Point, dir: Vector, n: nat) -> (
    Ratio,
    isize,
    bool,
)
    decreases n,
{
    if n == 0 {
        (Ratio::lowest_spec(), 0isize, false)
    } else {
        let k = (n - 1) as nat;
        let prev = near_bound(aabb, origin, dir, k);
        let e = entry_param(aabb, origin, dir, k as int);
        if is_parallel(dir, k as int) {
            prev
        } else if prev.0.lt(e) {
            (e, side_of(aabb, origin, dir, k as int), false)
        } else if e.same(prev.0) {
            (prev.0, prev.1, true)
        } else {
            prev
        }
    }
}

/// The running far bound after the first `n` axes, taken one by one: its
/// parameter, its side identifier and whether a later slab tied with it.
pub open spec fn far_bound(aabb: Aabb, origin: Point, dir: Vector, n: nat) -> (
    Ratio,
    isize,
    bool,
)
    decreases n,
{
    if n == 0 {
        (Ratio::highest_spec(), 0isize, false)
    } else {
        let k = (n - 1) as nat;
        let prev = far_bound(aabb, origin, dir, k);
        let e = exit_param(aabb, origin, dir, k as int);
        if is_parallel(dir, k as int) {
            prev
        } else if e.lt(prev.0) {
            (e, side_of(aabb, origin, dir, k as int), false)
        } else if e.same(prev.0) {
            (prev.0, prev.1, true)
        } else {
            prev
        }
    }
}

/// What a running near bound is: untouched while every axis is parallel, and
/// otherwise the entry into the slab of the deciding axis.
pub open spec fn is_near_bound(
    aabb: Aabb,
    origin: Point,
    dir: Vector,
    n: int,
    s: (Ratio, isize, bool),
) -> bool {
    if all_parallel(dir, n) {
        s == (Ratio::lowest_spec(), 0isize, false)
    } else {
        exists|i: int| #[trigger]
            enters_last_at(aabb, origin, dir, n, i) && s == (
                entry_param(aabb, origin, dir, i),
                side_of(aabb, origin, dir, i),
                entry_tied(aabb, origin, dir, n, i),
            )
    }
}

/// What a running far bound is: untouched while every axis is parallel, and
/// otherwise the exit from the slab of the deciding axis.
pub open spec fn is_far_bound(
    aabb: Aabb,
    origin: Point,
    dir: Vector,
    n: int,
    s: (Ratio, isize, bool),
) -> bool {
    if all_parallel(dir, n) {
        s == (Ratio::highest_spec(), 0isize, false)
    } else {
        exists|i: int| #[trigger]
            exits_first_at(aabb, origin, dir, n, i) && s == (
                exit_param(aabb, origin, dir, i),
                side_of(aabb, origin, dir, i),
                exit_tied(aabb, origin, dir, n, i),
            )
    }
}

/// The crossings of a slab to which the direction is not parallel are proper
/// ratios of a coordinate difference and the direction component.
pub proof fn lemma_crossings(aabb: Aabb, origin: Point, dir: Vector, i: int)
    requires
        !is_parallel(dir, i),
    ensures
        low_crossing(aabb, origin, dir, i).wf(),
        high_crossing(aabb, origin, dir, i).wf(),
        entry_param(aabb, origin, dir, i).wf(),
        exit_param(aabb, origin, dir, i).wf(),
        entry_param(aabb, origin, dir, i).le(exit_param(aabb, origin, dir, i)),
        -0x1_0000_0000 < entry_param(aabb, origin, dir, i).num < 0x1_0000_0000,
        -0x1_0000_0000 < exit_param(aabb, origin, dir, i).num < 0x1_0000_0000,
        0 <= i < AXES ==> side_of(aabb, origin, dir, i) != 0,
{
}

/// Taking the axes one by one finds the deciding axis of the entry: the
/// running near bound is the near bound.
pub proof fn lemma_near_bound(aabb: Aabb, origin: Point, dir: Vector, n: nat)
    ensures
        is_near_bound(aabb, origin, dir, n as int, near_bound(aabb, origin, dir, n)),
    decreases n,
{
    if n > 0 {
        let k = (n - 1) as nat;
        let ki = k as int;
        let ni = n as int;
        lemma_near_bound(aabb, origin, dir, k);
        let prev = near_bound(aabb, origin, dir, k);
        let cur = near_bound(aabb, origin, dir, n);
        let e = entry_param(aabb, origin, dir, ki);
        if all_parallel(dir, ki) {
            if is_parallel(dir, ki) {
                assert(all_parallel(dir, ni));
            } else {
                lemma_crossings(aabb, origin, dir, ki);
                Ratio::lemma_lowest_below(e);
                assert(e.le(e));
                assert(enters_last_at(aabb, origin, dir, ni, ki));
                assert(!entry_tied(aabb, origin, dir, ni, ki));
            }
        } else {
            let a = choose|i: int| #[trigger]
                enters_last_at(aabb, origin, dir, ki, i) && prev == (
                    entry_param(aabb, origin, dir, i),
                    side_of(aabb, origin, dir, i),
                    entry_tied(aabb, origin, dir, ki, i),
                );
            let t = entry_param(aabb, origin, dir, a);
            lemma_crossings(aabb, origin, dir, a);
            assert(!all_parallel(dir, ni));
            if is_parallel(dir, ki) {
                assert(enters_last_at(aabb, origin, dir, ni, a));
                assert(entry_tied(aabb, origin, dir, ni, a) == entry_tied(aabb, origin, dir, ki, a));
            } else {
                lemma_crossings(aabb, origin, dir, ki);
                if t.lt(e) {
                    assert forall|j: int| 0 <= j < ki && !is_parallel(dir, j) implies (
                    #[trigger] entry_param(aabb, origin, dir, j)).lt(e) by {
                        lemma_crossings(aabb, origin, dir, j);
                        Ratio::lemma_le_lt(entry_param(aabb, origin, dir, j), t, e);
                    }
                    assert(e.le(e));
                    assert(enters_last_at(aabb, origin, dir, ni, ki));
                    assert(!entry_tied(aabb, origin, dir, ni, ki));
                } else {
                    assert(e.le(t));
                    assert(enters_last_at(aabb, origin, dir, ni, a));
                    if e.same(t) {
                        assert(entry_tied(aabb, origin, dir, ni, a));
                    } else {
                        assert(entry_tied(aabb, origin, dir, ni, a) == entry_tied(
                            aabb,
                            origin,
                            dir,
                            ki,
                            a,
                        ));
                    }
                }
            }
        }
    }
}

/// Taking the axes one by one finds the deciding axis of the exit: the
/// running far bound is the far bound.
pub proof fn lemma_far_bound(aabb: Aabb, origin: Point, dir: Vector, n: nat)
    ensures
        is_far_bound(aabb, origin, dir, n as int, far_bound(aabb, origin, dir, n)),
    decreases n,
{
    if n > 0 {
        let k = (n - 1) as nat;
        let ki = k as int;
        let ni = n as int;
        lemma_far_bound(aabb, origin, dir, k);
        let prev = far_bound(aabb, origin, dir, k);
        let cur = far_bound(aabb, origin, dir, n);
        let e = exit_param(aabb, origin, dir, ki);
        if all_parallel(dir, ki) {
            if is_parallel(dir, ki) {
                assert(all_parallel(dir, ni));
            } else {
                lemma_crossings(aabb, origin, dir, ki);
                Ratio::lemma_highest_above(e);
                assert(e.le(e));
                assert(exits_first_at(aabb, origin, dir, ni, ki));
                assert(!exit_tied(aabb, origin, dir, ni, ki));
            }
        } else {
            let a = choose|i: int| #[trigger]
                exits_first_at(aabb, origin, dir, ki, i) && prev == (
                    exit_param(aabb, origin, dir, i),
                    side_of(aabb, origin, dir, i),
                    exit_tied(aabb, origin, dir, ki, i),
                );
            let t = exit_param(aabb, origin, dir, a);
            lemma_crossings(aabb, origin, dir, a);
            assert(!all_parallel(dir, ni));
            if is_parallel(dir, ki) {
                assert(exits_first_at(aabb, origin, dir, ni, a));
                assert(exit_tied(aabb, origin, dir, ni, a) == exit_tied(aabb, origin, dir, ki, a));
            } else {
                lemma_crossings(aabb, origin, dir, ki);
                if e.lt(t) {
                    assert forall|j: int| 0 <= j < ki && !is_parallel(dir, j) implies e.lt(
                        #[trigger] exit_param(aabb, origin, dir, j),
                    ) by {
                        lemma_crossings(aabb, origin, dir, j);
                        Ratio::lemma_lt_le(e, t, exit_param(aabb, origin, dir, j));
                    }
                    assert(e.le(e));
                    assert(exits_first_at(aabb, origin, dir, ni, ki));
                    assert(!exit_tied(aabb, origin, dir, ni, ki));
                } else {
                    assert(t.le(e));
                    assert(exits_first_at(aabb, origin, dir, ni, a));
                    if e.same(t) {
                        assert(exit_tied(aabb, origin, dir, ni, a));
                    } else {
                        assert(exit_tied(aabb, origin, dir, ni, a) == exit_tied(
                            aabb,
                            origin,
                            dir,
                            ki,
                            a,
                        ));
                    }
                }
            }
        }
    }
}

/// A line that stays within the slabs it is parallel to, leaves no slab
/// before the origin and enters every slab before it leaves any, does not miss.
pub proof fn lemma_clear(aabb: Aabb, origin: Point, dir: Vector, n: int, a: int, b: int)
    requires
        parallel_within(aabb, origin, dir, n),
        enters_last_at(aabb, origin, dir, n, a),
        exits_first_at(aabb, origin, dir, n, b),
        !exit_param(aabb, origin, dir, b).lt(Ratio::zero_spec()),
        !exit_param(aabb, origin, dir, b).lt(entry_param(aabb, origin, dir, a)),
    ensures
        !misses(aabb, origin, dir, n),
{
    let near = entry_param(aabb, origin, dir, a);
    let far = exit_param(aabb, origin, dir, b);
    lemma_crossings(aabb, origin, dir, a);
    lemma_crossings(aabb, origin, dir, b);
    assert forall|j: int| 0 <= j < n && !is_parallel(dir, j) implies !(#[trigger] exit_param(
        aabb,
        origin,
        dir,
        j,
    )).lt(Ratio::zero_spec()) by {
        let x = exit_param(aabb, origin, dir, j);
        lemma_crossings(aabb, origin, dir, j);
        if x.lt(Ratio::zero_spec()) {
            Ratio::lemma_le_lt(far, x, Ratio::zero_spec());
        }
    }
    assert forall|i: int, j: int|
        0 <= i < n && 0 <= j < n && !is_parallel(dir, i) && !is_parallel(dir, j) implies !(
        #[trigger] exit_param(aabb, origin, dir, j)).lt(
        #[trigger] entry_param(aabb, origin, dir, i),
    ) by {
        let x = exit_param(aabb, origin, dir, j);
        let e = entry_param(aabb, origin, dir, i);
        lemma_crossings(aabb, origin, dir, i);
        lemma_crossings(aabb, origin, dir, j);
        if x.lt(e) {
            Ratio::lemma_le_lt(far, x, e);
            Ratio::lemma_lt_le(far, e, near);
        }
    }
}

/// A line parallel to every slab misses the box only by lying outside a slab.
pub proof fn lemma_clear_parallel(aabb: Aabb, origin: Point, dir: Vector, n: int)
    requires
        parallel_within(aabb, origin, dir, n),
        all_parallel(dir, n),
    ensures
        !misses(aabb, origin, dir, n),
{
}

/// The normal of a near hit, from the side identifier and the tie flag of the
/// running near bound.
pub open spec fn near_normal_of(side: isize, tied: bool) -> Normal {
    if tied {
        Normal::Reverse
    } else if side < 0 {
        Normal::Axis { axis: (-side - 1) as usize, positive: true }
    } else if side > 0 {
        Normal::Axis { axis: (side - 1) as usize, positive: false }
    } else {
        Normal::Zero
    }
}

/// The normal of a far hit, from the side identifier and the tie flag of the
/// running far bound.
pub open spec fn far_normal_of(side: isize, tied: bool) -> Normal {
    if tied {
        Normal::Reverse
    } else if side < 0 {
        Normal::Axis { axis: (-side - 1) as usize, positive: false }
    } else if side > 0 {
        Normal::Axis { axis: (side - 1) as usize, positive: true }
    } else {
        Normal::Zero
    }
}

/// Once the running far bound lies before the origin or before the running
/// near bound, the line misses the box.
pub proof fn lemma_bounds_crossed(aabb: Aabb, origin: Point, dir: Vector, n: nat)
    requires
        n <= AXES,
        !all_parallel(dir, n as int),
        ({
            let near = near_bound(aabb, origin, dir, n);
            let far = far_bound(aabb, origin, dir, n);
            far.0.lt(Ratio::zero_spec()) || far.0.lt(near.0)
        }),
    ensures
        misses(aabb, origin, dir, AXES as int),
{
    lemma_near_bound(aabb, origin, dir, n);
    lemma_far_bound(aabb, origin, dir, n);
    let near = near_bound(aabb, origin, dir, n);
    let far = far_bound(aabb, origin, dir, n);
    let a = choose|a: int| #[trigger]
        enters_last_at(aabb, origin, dir, n as int, a) && near == (
            entry_param(aabb, origin, dir, a),
            side_of(aabb, origin, dir, a),
            entry_tied(aabb, origin, dir, n as int, a),
        );
    let b = choose|b: int| #[trigger]
        exits_first_at(aabb, origin, dir, n as int, b) && far == (
            exit_param(aabb, origin, dir, b),
            side_of(aabb, origin, dir, b),
            exit_tied(aabb, origin, dir, n as int, b),
        );
    assert(near.0 == entry_param(aabb, origin, dir, a));
    assert(far.0 == exit_param(aabb, origin, dir, b));
    assert(0 <= a < AXES && 0 <= b < AXES);
    assert(!is_parallel(dir, a) && !is_parallel(dir, b));
}

/// Once every axis is taken and the running bounds never crossed, the line
/// does not miss the box, and the running bounds give its two hits.
pub proof fn lemma_bounds_kept(aabb: Aabb, origin: Point, dir: Vector)
    requires
        parallel_within(aabb, origin, dir, AXES as int),
        !all_parallel(dir, AXES as int) ==> {
            let near = near_bound(aabb, origin, dir, AXES as nat);
            let far = far_bound(aabb, origin, dir, AXES as nat);
            !far.0.lt(Ratio::zero_spec()) && !far.0.lt(near.0)
        },
    ensures
        !misses(aabb, origin, dir, AXES as int),
        ({
            let near = near_bound(aabb, origin, dir, AXES as nat);
            near_hit(aabb, origin, dir, AXES as int) == (
                near.0,
                near_normal_of(near.1, near.2),
                near.1,
            ) && near.0.wf()
        }),
        ({
            let far = far_bound(aabb, origin, dir, AXES as nat);
            far_hit(aabb, origin, dir, AXES as int) == (far.0, far_normal_of(far.1, far.2), far.1)
                && far.0.wf()
        }),
        -AXES <= near_bound(aabb, origin, dir, AXES as nat).1 <= AXES,
        -AXES <= far_bound(aabb, origin, dir, AXES as nat).1 <= AXES,
{
    let n = AXES as int;
    lemma_near_bound(aabb, origin, dir, AXES as nat);
    lemma_far_bound(aabb, origin, dir, AXES as nat);
    let near = near_bound(aabb, origin, dir, AXES as nat);
    let far = far_bound(aabb, origin, dir, AXES as nat);
    if all_parallel(dir, n) {
        lemma_clear_parallel(aabb, origin, dir, n);
    } else {
        let a = choose|a: int| #[trigger]
            enters_last_at(aabb, origin, dir, n, a) && near == (
                entry_param(aabb, origin, dir, a),
                side_of(aabb, origin, dir, a),
                entry_tied(aabb, origin, dir, n, a),
            );
        let b = choose|b: int| #[trigger]
            exits_first_at(aabb, origin, dir, n, b) && far == (
                exit_param(aabb, origin, dir, b),
                side_of(aabb, origin, dir, b),
                exit_tied(aabb, origin, dir, n, b),
            );
        lemma_clear(aabb, origin, dir, n, a, b);
        lemma_entry_axis_unique(aabb, origin, dir, n, a, entry_axis(aabb, origin, dir, n));
        lemma_exit_axis_unique(aabb, origin, dir, n, b, exit_axis(aabb, origin, dir, n));
        lemma_crossings(aabb, origin, dir, a);
        lemma_crossings(aabb, origin, dir, b);
        assert((near.0, near_normal_of(near.1, near.2), near.1) == near_hit_at(
            aabb,
            origin,
            dir,
            n,
            a,
        ));
        assert((far.0, far_normal_of(far.1, far.2), far.1) == far_hit_at(aabb, origin, dir, n, b));
    }
}

/// Unless the direction is parallel to every one of the first `n` slabs, one
/// axis decides the near hit and one the far hit.
pub proof fn lemma_deciding_axes(aabb: Aabb, origin: Point, dir: Vector, n: nat)
    requires
        !all_parallel(dir, n as int),
    ensures
        enters_last_at(aabb, origin, dir, n as int, entry_axis(aabb, origin, dir, n as int)),
        exits_first_at(aabb, origin, dir, n as int, exit_axis(aabb, origin, dir, n as int)),
{
    lemma_near_bound(aabb, origin, dir, n);
    lemma_far_bound(aabb, origin, dir, n);
}

} // verus!
