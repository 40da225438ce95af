//! Axis-aligned boxes in the plane and the clipping of lines against them.

use vstd::prelude::*;
use crate::plane::segment::Segment;
use crate::plane::slab::{
    all_parallel, clip_line, entry_param, exit_param, far_bound, is_parallel,
    lemma_bounds_crossed, lemma_bounds_kept, lemma_crossings, near_bound, outside_slab,
    parallel_within, side_of, PARALLEL_EPSILON,
};
use crate::plane::{Point, Vector, AXES};
use crate::scalar::{greater, half_floor, lesser, Ratio};

verus! {

/// The normal of a hit.
#[derive(Debug, Clone, Copy, PartialEq, Eq, Structural)]
pub enum Normal {
    /// The zero vector: no face was crossed.
    Zero,
    /// The unit vector along `axis`, towards the high side if `positive` and
    /// towards the low side if not.
    Axis { axis: usize, positive: bool },
    /// The unit vector opposite to the direction of the line: the hit lies on
    /// an edge or a corner, where no single face decides.
    Reverse,
}

/// An axis-aligned box: the points `p` with `mins <= p <= maxs` on each axis.
#[derive(Debug, Clone, Copy, PartialEq, Eq, Structural)]
pub struct Aabb {
    pub mins: Point,
    pub maxs: Point,
}

impl Aabb {
    /// `mins <= maxs` on each axis.
    pub open spec fn is_ordered(self) -> bool {
        self.mins.x <= self.maxs.x && self.mins.y <= self.maxs.y
    }

    /// The box that reaches over the whole lattice.
    pub open spec fn new_invalid_spec() -> Aabb {
        Aabb {
            mins: Point { x: i32::MIN, y: i32::MIN },
            maxs: Point { x: i32::MAX, y: i32::MAX },
        }
    }

    /// The two boxes overlap: on each axis `self` begins at or before the end
    /// of `other` and ends after the beginning of `other`.
    pub open spec fn intersects_spec(self, other: Aabb) -> bool {
        &&& self.mins.x <= other.maxs.x
        &&& self.maxs.x > other.mins.x
        &&& self.mins.y <= other.maxs.y
        &&& self.maxs.y > other.mins.y
    }

    /// The greatest lower and the least upper corner of the two boxes, whether
    /// or not they bound a box.
    pub open spec fn overlap(self, other: Aabb) -> Aabb {
        Aabb {
            mins: Point {
                x: greater(self.mins.x, other.mins.x),
                y: greater(self.mins.y, other.mins.y),
            },
            maxs: Point {
                x: lesser(self.maxs.x, other.maxs.x),
                y: lesser(self.maxs.y, other.maxs.y),
            },
        }
    }

    /// The box common to both, if on no axis its lower corner lies above its
    /// upper corner. A box without width counts.
    pub open spec fn intersection_spec(self, other: Aabb) -> Option<Aabb> {
        let common = self.overlap(other);
        if common.is_ordered() {
            Some(common)
        } else {
            None
        }
    }

    /// The midpoint of the corners, rounded down to the lattice.
    pub open spec fn center_spec(self) -> Point {
        Point {
            x: ((self.mins.x + self.maxs.x) / 2) as i32,
            y: ((self.mins.y + self.maxs.y) / 2) as i32,
        }
    }

    /// The size on each axis.
    pub open spec fn extents_spec(self) -> Vector {
        Vector {
            x: (self.maxs.x - self.mins.x) as i64,
            y: (self.maxs.y - self.mins.y) as i64,
        }
    }

    /// Half the size on each axis, rounded down.
    pub open spec fn half_extents_spec(self) -> Vector {
        Vector {
            x: ((self.maxs.x - self.mins.x) / 2) as i64,
            y: ((self.maxs.y - self.mins.y) / 2) as i64,
        }
    }

    /// The point lies in the box, its faces included.
    pub open spec fn holds(self, p: Point) -> bool {
        forall|i: int| 0 <= i < AXES ==> !#[trigger] outside_slab(self, p, i)
    }

    /// `other` lies within `self` or equals it on each axis.
    pub open spec fn contains_spec(self, other: Aabb) -> bool {
        &&& self.mins.x <= other.mins.x
        &&& self.mins.y <= other.mins.y
        &&& self.maxs.x >= other.maxs.x
        &&& self.maxs.y >= other.maxs.y
    }

    /// What clipping the segment from `pa` to `pb` gives: nothing where its
    /// line misses the box, and otherwise the part of the segment between the
    /// two hits, their parameters clamped to the segment.
    pub open spec fn clip_segment_spec(self, pa: Point, pb: Point) -> Option<Segment> {
        let ab = pa.displacement_to_spec(pb);
        match clip_line(self, pa, ab) {
            None => None,
            Some((near, far)) => Some(
                Segment {
                    a: pa.advanced_spec(ab, near.0.clamp_unit_spec()),
                    b: pa.advanced_spec(ab, far.0.clamp_unit_spec()),
                },
            ),
        }
    }

    /// The box with the given corners; nothing is checked.
    pub fn new(mins: Point, maxs: Point) -> (b: Self)
        ensures
            b.mins == mins,
            b.maxs == maxs,
    {
        Self { mins, maxs }
    }

    /// The box from the least to the greatest coordinate on each axis: a
    /// start for narrowing by [`Aabb::intersection`].
    pub fn new_invalid() -> (b: Self)
        ensures
            b == Self::new_invalid_spec(),
    {
        Self::new(Point::new(i32::MIN, i32::MIN), Point::new(i32::MAX, i32::MAX))
    }

    /// Whether the two boxes overlap. Boxes that only touch, the end of
    /// `self` on the beginning of `other`, do not.
    pub fn intersects(&self, other: &Aabb) -> (hit: bool)
        ensures
            hit == self.intersects_spec(*other),
    {
        self.mins.x <= other.maxs.x && self.maxs.x > other.mins.x && self.mins.y <= other.maxs.y
            && self.maxs.y > other.mins.y
    }

    /// The box common to both, or `None` if there is none.
    pub fn intersection(&self, other: &Self) -> (common: Option<Self>)
        ensures
            common == self.intersection_spec(*other),
    {
        let mins = Point::new(
            greater(self.mins.x, other.mins.x),
            greater(self.mins.y, other.mins.y),
        );
        let maxs = Point::new(lesser(self.maxs.x, other.maxs.x), lesser(self.maxs.y, other.maxs.y));
        let result = Self { mins, maxs };

        let mut i: usize = 0;
        while i < AXES
            invariant
                i <= AXES,
                result == self.overlap(*other),
                forall|j: int|
                    0 <= j < i ==> result.mins.coord(j) <= #[trigger] result.maxs.coord(j),
            decreases AXES - i,
        {
            if result.mins.get(i) > result.maxs.get(i) {
                return None;
            }
            i += 1;
        }
        proof {
            assert(result.mins.coord(0) <= result.maxs.coord(0));
            assert(result.mins.coord(1) <= result.maxs.coord(1));
        }
        Some(result)
    }

    /// The part of the segment from `pa` to `pb` that the box keeps.
    pub fn clip_segment(&self, pa: Point, pb: Point) -> (clipped: Option<Segment>)
        ensures
            clipped == self.clip_segment_spec(pa, pb),
    {
        let ab = pa.displacement_to(&pb);
        match clip_aabb_line(self, &pa, &ab) {
            None => None,
            Some((near, far)) => {
                let t_near = near.0.clamp_unit();
                let t_far = far.0.clamp_unit();
                Some(Segment::new(pa.advanced(&ab, &t_near), pa.advanced(&ab, &t_far)))
            },
        }
    }

    /// The midpoint of the corners, rounded down to the lattice.
    pub fn center(&self) -> (c: Point)
        ensures
            c == self.center_spec(),
            c.x == (self.mins.x + self.maxs.x) / 2,
            c.y == (self.mins.y + self.maxs.y) / 2,
    {
        Point::new(
            half_floor(self.mins.x as i64 + self.maxs.x as i64) as i32,
            half_floor(self.mins.y as i64 + self.maxs.y as i64) as i32,
        )
    }

    /// Half the size on each axis, rounded down.
    pub fn half_extents(&self) -> (h: Vector)
        ensures
            h == self.half_extents_spec(),
            h.x == (self.maxs.x - self.mins.x) / 2,
            h.y == (self.maxs.y - self.mins.y) / 2,
    {
        Vector::new(
            half_floor(self.maxs.x as i64 - self.mins.x as i64),
            half_floor(self.maxs.y as i64 - self.mins.y as i64),
        )
    }

    /// The size on each axis.
    pub fn extents(&self) -> (e: Vector)
        ensures
            e == self.extents_spec(),
            e.x == self.maxs.x - self.mins.x,
            e.y == self.maxs.y - self.mins.y,
    {
        self.mins.displacement_to(&self.maxs)
    }

    /// Whether `other` lies within `self` or equals it.
    pub fn contains(&self, other: &Aabb) -> (inside: bool)
        ensures
            inside == self.contains_spec(*other),
    {
        self.mins.x <= other.mins.x && self.mins.y <= other.mins.y && self.maxs.x >= other.maxs.x
            && self.maxs.y >= other.maxs.y
    }
}

/// Clips the line `origin + t * dir` against `aabb` by the slab method.
///
/// Returns `None` where the line misses the box or the box lies behind the
/// origin. Otherwise returns the near and the far hit, each with its
/// parameter `t`, its normal and its side identifier.
///
/// A component of `dir` smaller than [`PARALLEL_EPSILON`] is taken as
/// parallel to its slab: the origin must then lie within the slab, and the
/// axis decides no hit.
///
/// The side identifier of a hit is `i + 1` for the axis `i` that decides it,
/// negated when the line travels down that axis. The normal of a hit is the
/// outward normal of the face on which it lies; where two slabs are entered,
/// or left, at the same parameter the hit lies on an edge or a corner, and
/// the normal is that of [`Normal::Reverse`]. Where `dir` is parallel to
/// every slab and the origin lies in the box, no face is crossed: the
/// parameters are the least and the greatest ratio, the normals zero and the
/// sides 0.
pub fn clip_aabb_line(aabb: &Aabb, origin: &Point, dir: &Vector) -> (result: Option<
    ((Ratio, Normal, isize), (Ratio, Normal, isize)),
>)
    ensures
        result == clip_line(*aabb, *origin, *dir),
        result matches Some((near, far)) ==> near.0.wf() && far.0.wf(),
{
    let mut tmax = Ratio::highest();
    let mut tmin = Ratio::lowest();
    let mut near_side: isize = 0;
    let mut far_side: isize = 0;
    let mut near_diag = false;
    let mut far_diag = false;

    let mut i: usize = 0;
    while i < AXES
        invariant
            i <= AXES,
            parallel_within(*aabb, *origin, *dir, i as int),
            (tmin, near_side, near_diag) == near_bound(*aabb, *origin, *dir, i as nat),
            (tmax, far_side, far_diag) == far_bound(*aabb, *origin, *dir, i as nat),
            tmin.wf(),
            tmax.wf(),
            !all_parallel(*dir, i as int) ==> !tmax.lt(Ratio::zero_spec()) && !tmax.lt(tmin),
        decreases AXES - i,
    {
        let d = dir.get(i);
        if -PARALLEL_EPSILON < d && d < PARALLEL_EPSILON {
            let o = origin.get(i);
            if o < aabb.mins.get(i) || o > aabb.maxs.get(i) {
                assert(outside_slab(*aabb, *origin, i as int));
                return None;
            }
            assert(is_parallel(*dir, i as int));
        } else {
            let o = origin.get(i) as i64;
            let low = Ratio::from_quotient(aabb.mins.get(i) as i64 - o, d);
            let high = Ratio::from_quotient(aabb.maxs.get(i) as i64 - o, d);
            let flip_sides = high.is_below(&low);
            let (near_t, far_t) = if flip_sides {
                (high, low)
            } else {
                (low, high)
            };
            let side = if flip_sides {
                -(i as isize + 1)
            } else {
                i as isize + 1
            };
            proof {
                lemma_crossings(*aabb, *origin, *dir, i as int);
                assert(near_t == entry_param(*aabb, *origin, *dir, i as int));
                assert(far_t == exit_param(*aabb, *origin, *dir, i as int));
                assert(side == side_of(*aabb, *origin, *dir, i as int));
            }

            if tmin.is_below(&near_t) {
                tmin = near_t;
                near_side = side;
                near_diag = false;
            } else if near_t.is_same(&tmin) {
                near_diag = true;
            }
            if far_t.is_below(&tmax) {
                tmax = far_t;
                far_side = side;
                far_diag = false;
            } else if far_t.is_same(&tmax) {
                far_diag = true;
            }

            if tmax.is_below(&Ratio::zero()) || tmax.is_below(&tmin) {
                proof {
                    assert(!is_parallel(*dir, i as int));
                    lemma_bounds_crossed(*aabb, *origin, *dir, (i + 1) as nat);
                }
                return None;
            }
        }
        i += 1;
    }

    proof {
        lemma_bounds_kept(*aabb, *origin, *dir);
    }

    let near_normal = if near_diag {
        Normal::Reverse
    } else if near_side < 0 {
        Normal::Axis { axis: (-near_side - 1) as usize, positive: true }
    } else if near_side > 0 {
        Normal::Axis { axis: (near_side - 1) as usize, positive: false }
    } else {
        Normal::Zero
    };
    let far_normal = if far_diag {
        Normal::Reverse
    } else if far_side < 0 {
        Normal::Axis { axis: (-far_side - 1) as usize, positive: false }
    } else if far_side > 0 {
        Normal::Axis { axis: (far_side - 1) as usize, positive: true }
    } else {
        Normal::Zero
    };

    Some(((tmin, near_normal, near_side), (tmax, far_normal, far_side)))
}

} // verus!
