//! What holds of the boxes of space, whatever their corners.

use vstd::prelude::*;
use crate::solid::aabb::Aabb;
use crate::solid::AXES;

verus! {

/// The low face of `a` lies in the plane of the high face of `b` on some axis.
pub open spec fn rests_on(a: Aabb, b: Aabb) -> bool {
    exists|i: int| 0 <= i < AXES && a.mins.coord(i) == #[trigger] b.maxs.coord(i)
}

/// On every axis each box begins at or before the end of the other.
pub open spec fn meets(a: Aabb, b: Aabb) -> bool {
    forall|i: int|
        0 <= i < AXES ==> a.mins.coord(i) <= #[trigger] b.maxs.coord(i) && b.mins.coord(i)
            <= a.maxs.coord(i)
}

/// The overlap test gives the same answer both ways round, unless one box
/// passes it against the other while resting its low face on the other's
/// high face.
pub proof fn lemma_intersects_symmetric(a: Aabb, b: Aabb)
    requires
        !(a.intersects_spec(b) && rests_on(a, b)),
        !(b.intersects_spec(a) && rests_on(b, a)),
    ensures
        a.intersects_spec(b) == b.intersects_spec(a),
{
    if a.intersects_spec(b) && !b.intersects_spec(a) {
        lemma_intersects_one_way(a, b);
    }
    if b.intersects_spec(a) && !a.intersects_spec(b) {
        lemma_intersects_one_way(b, a);
    }
}

/// A box passes the overlap test against another that fails it in return
/// exactly when it passes while resting its low face on the other's high face.
pub proof fn lemma_intersects_one_way(a: Aabb, b: Aabb)
    ensures
        (a.intersects_spec(b) && !b.intersects_spec(a)) <==> (a.intersects_spec(b) && rests_on(
            a,
            b,
        )),
{
    if a.intersects_spec(b) {
        if !b.intersects_spec(a) {
            if a.mins.x == b.maxs.x {
                assert(a.mins.coord(0) == b.maxs.coord(0));
            } else if a.mins.y == b.maxs.y {
                assert(a.mins.coord(1) == b.maxs.coord(1));
            } else {
                assert(a.mins.coord(2) == b.maxs.coord(2));
            }
        }
        if rests_on(a, b) {
            let i = choose|i: int| 0 <= i < AXES && a.mins.coord(i) == #[trigger] b.maxs.coord(i);
            assert(!(b.maxs.coord(i) > a.mins.coord(i)));
        }
    }
}

/// Two boxes that touch, the high face of `a` on the low face of `b` on axis
/// `i`, and that meet on the other axes: `a` does not overlap `b`, and yet
/// their intersection, taken either way round, is a box, without width on
/// axis `i`.
pub proof fn lemma_touching(a: Aabb, b: Aabb, i: int)
    requires
        a.is_ordered(),
        b.is_ordered(),
        0 <= i < AXES,
        a.maxs.coord(i) == b.mins.coord(i),
        meets(a, b),
    ensures
        !a.intersects_spec(b),
        a.intersection_spec(b) is Some,
        a.intersection_spec(b)->0.maxs.coord(i) - a.intersection_spec(b)->0.mins.coord(i) == 0,
        a.intersection_spec(b)->0.extents_spec().coord(i) == 0,
        b.intersection_spec(a) == a.intersection_spec(b),
{
    assert(a.mins.coord(0) <= b.maxs.coord(0) && b.mins.coord(0) <= a.maxs.coord(0));
    assert(a.mins.coord(1) <= b.maxs.coord(1) && b.mins.coord(1) <= a.maxs.coord(1));
    assert(a.mins.coord(2) <= b.maxs.coord(2) && b.mins.coord(2) <= a.maxs.coord(2));
}

/// The intersection of two boxes, where there is one, lies within both.
pub proof fn lemma_intersection_contained(a: Aabb, b: Aabb)
    ensures
        a.intersection_spec(b) matches Some(c) ==> a.contains_spec(c) && b.contains_spec(c),
{
}

/// Intersecting does not depend on the order of the two boxes.
pub proof fn lemma_intersection_commutes(a: Aabb, b: Aabb)
    ensures
        a.intersection_spec(b) == b.intersection_spec(a),
{
}

/// Intersecting with the box that reaches over the whole lattice changes
/// nothing.
pub proof fn lemma_intersection_identity(a: Aabb)
    requires
        a.is_ordered(),
    ensures
        Aabb::new_invalid_spec().intersection_spec(a) == Some(a),
        Aabb::new_invalid_spec().contains_spec(a),
{
}

/// Every box contains itself.
pub proof fn lemma_contains_reflexive(a: Aabb)
    ensures
        a.contains_spec(a),
{
}

/// Two boxes that contain each other are equal.
pub proof fn lemma_contains_antisymmetric(a: Aabb, b: Aabb)
    requires
        a.contains_spec(b),
        b.contains_spec(a),
    ensures
        a == b,
{
}

/// Containment carries over: what lies within a box lies within any box
/// that contains it.
pub proof fn lemma_contains_transitive(a: Aabb, b: Aabb, c: Aabb)
    requires
        a.contains_spec(b),
        b.contains_spec(c),
    ensures
        a.contains_spec(c),
{
}

/// Twice the half extents fall short of the extents by less than one
/// fixed-point unit on each axis, and by nothing where the extent is even.
pub proof fn lemma_half_extents_doubled(a: Aabb)
    ensures
        forall|i: int|
            0 <= i < AXES ==> 0 <= a.extents_spec().coord(i) - 2
                * #[trigger] a.half_extents_spec().coord(i) <= 1,
        forall|i: int|
            0 <= i < AXES && a.extents_spec().coord(i) % 2 == 0 ==> 2
                * #[trigger] a.half_extents_spec().coord(i) == a.extents_spec().coord(i),
{
}

/// The center of a box whose corners are in order lies between them.
pub proof fn lemma_center_within(a: Aabb)
    requires
        a.is_ordered(),
    ensures
        forall|i: int|
            0 <= i < AXES ==> a.mins.coord(i) <= #[trigger] a.center_spec().coord(i)
                <= a.maxs.coord(i),
{
}

} // verus!
