//! Axis-aligned boxes in space.

use vstd::prelude::*;
use crate::scalar::{greater, half_floor, lesser};
use crate::solid::{Point, Vector, AXES};

verus! {

/// An axis-aligned box: the points `p` with `mins <= p <= maxs` on each axis.
#[derive(Debug, Clone, Copy, PartialEq, Eq, Structural)]
pub struct Aabb {
    pub mins: Point,
    pub maxs: Point,
}

impl Aabb {
    /// `mins <= maxs` on each axis.
    pub open spec fn is_ordered(self) -> bool {
        self.mins.x <= self.maxs.x && self.mins.y <= self.maxs.y && self.mins.z <= self.maxs.z
    }

    /// The box that reaches over the whole lattice.
    pub open spec fn new_invalid_spec() -> Aabb {
        Aabb {
            mins: Point { x: i32::MIN, y: i32::MIN, z: i32::MIN },
            maxs: Point { x: i32::MAX, y: i32::MAX, z: i32::MAX },
        }
    }

    /// The two boxes overlap: on each axis `self` begins at or before the end
    /// of `other` and ends after the beginning of `other`.
    pub open spec fn intersects_spec(self, other: Aabb) -> bool {
        &&& self.mins.x <= other.maxs.x
        &&& self.maxs.x > other.mins.x
        &&& self.mins.y <= other.maxs.y
        &&& self.maxs.y > other.mins.y
        &&& self.mins.z <= other.maxs.z
        &&& self.maxs.z > other.mins.z
    }

    /// The greatest lower and the least upper corner of the two boxes, whether
    /// or not they bound a box.
    pub open spec fn overlap(self, other: Aabb) -> Aabb {
        Aabb {
            mins: Point {
                x: greater(self.mins.x, other.mins.x),
                y: greater(self.mins.y, other.mins.y),
                z: greater(self.mins.z, other.mins.z),
            },
            maxs: Point {
                x: lesser(self.maxs.x, other.maxs.x),
                y: lesser(self.maxs.y, other.maxs.y),
                z: lesser(self.maxs.z, other.maxs.z),
            },
        }
    }

    /// The box common to both, if on no axis its lower corner lies above its
    /// upper corner. A box without width counts.
    pub open spec fn intersection_spec(self, other: Aabb) -> Option<Aabb> {
        let common = self.overlap(other);
        if common.is_ordered() {
            Some(common)
        } else {
            None
        }
    }

    /// The midpoint of the corners, rounded down to the lattice.
    pub open spec fn center_spec(self) -> Point {
        Point {
            x: ((self.mins.x + self.maxs.x) / 2) as i32,
            y: ((self.mins.y + self.maxs.y) / 2) as i32,
            z: ((self.mins.z + self.maxs.z) / 2) as i32,
        }
    }

    /// The size on each axis.
    pub open spec fn extents_spec(self) -> Vector {
        Vector {
            x: (self.maxs.x - self.mins.x) as i64,
            y: (self.maxs.y - self.mins.y) as i64,
            z: (self.maxs.z - self.mins.z) as i64,
        }
    }

    /// Half the size on each axis, rounded down.
    pub open spec fn half_extents_spec(self) -> Vector {
        Vector {
            x: ((self.maxs.x - self.mins.x) / 2) as i64,
            y: ((self.maxs.y - self.mins.y) / 2) as i64,
            z: ((self.maxs.z - self.mins.z) / 2) as i64,
        }
    }

    /// `other` lies within `self` or equals it on each axis.
    pub open spec fn contains_spec(self, other: Aabb) -> bool {
        &&& self.mins.x <= other.mins.x
        &&& self.mins.y <= other.mins.y
        &&& self.mins.z <= other.mins.z
        &&& self.maxs.x >= other.maxs.x
        &&& self.maxs.y >= other.maxs.y
        &&& self.maxs.z >= other.maxs.z
    }

    /// The box with the given corners; nothing is checked.
    pub fn new(mins: Point, maxs: Point) -> (b: Self)
        ensures
            b.mins == mins,
            b.maxs == maxs,
    {
        Self { mins, maxs }
    }

    /// The box from the least to the greatest coordinate on each axis: a
    /// start for narrowing by [`Aabb::intersection`].
    pub fn new_invalid() -> (b: Self)
        ensures
            b == Self::new_invalid_spec(),
    {
        Self::new(
            Point::new(i32::MIN, i32::MIN, i32::MIN),
            Point::new(i32::MAX, i32::MAX, i32::MAX),
        )
    }

    /// Whether the two boxes overlap. Boxes that only touch, the end of
    /// `self` on the beginning of `other`, do not.
    pub fn intersects(&self, other: &Aabb) -> (hit: bool)
        ensures
            hit == self.intersects_spec(*other),
    {
        self.mins.x <= other.maxs.x && self.maxs.x > other.mins.x && self.mins.y <= other.maxs.y
            && self.maxs.y > other.mins.y && self.mins.z <= other.maxs.z && self.maxs.z
            > other.mins.z
    }

    /// The box common to both, or `None` if there is none.
    pub fn intersection(&self, other: &Self) -> (common: Option<Self>)
        ensures
            common == self.intersection_spec(*other),
    {
        let mins = Point::new(
            greater(self.mins.x, other.mins.x),
            greater(self.mins.y, other.mins.y),
            greater(self.mins.z, other.mins.z),
        );
        let maxs = Point::new(
            lesser(self.maxs.x, other.maxs.x),
            lesser(self.maxs.y, other.maxs.y),
            lesser(self.maxs.z, other.maxs.z),
        );
        let result = Self { mins, maxs };

        let mut i: usize = 0;
        while i < AXES
            invariant
                i <= AXES,
                result == self.overlap(*other),
                forall|j: int|
                    0 <= j < i ==> result.mins.coord(j) <= #[trigger] result.maxs.coord(j),
            decreases AXES - i,
        {
            if result.mins.get(i) > result.maxs.get(i) {
                return None;
            }
            i += 1;
        }
        proof {
            assert(result.mins.coord(0) <= result.maxs.coord(0));
            assert(result.mins.coord(1) <= result.maxs.coord(1));
            assert(result.mins.coord(2) <= result.maxs.coord(2));
        }
        Some(result)
    }

    /// The midpoint of the corners, rounded down to the lattice.
    pub fn center(&self) -> (c: Point)
        ensures
            c == self.center_spec(),
            c.x == (self.mins.x + self.maxs.x) / 2,
            c.y == (self.mins.y + self.maxs.y) / 2,
            c.z == (self.mins.z + self.maxs.z) / 2,
    {
        Point::new(
            half_floor(self.mins.x as i64 + self.maxs.x as i64) as i32,
            half_floor(self.mins.y as i64 + self.maxs.y as i64) as i32,
            half_floor(self.mins.z as i64 + self.maxs.z as i64) as i32,
        )
    }

    /// Half the size on each axis, rounded down.
    pub fn half_extents(&self) -> (h: Vector)
        ensures
            h == self.half_extents_spec(),
            h.x == (self.maxs.x - self.mins.x) / 2,
            h.y == (self.maxs.y - self.mins.y) / 2,
            h.z == (self.maxs.z - self.mins.z) / 2,
    {
        Vector::new(
            half_floor(self.maxs.x as i64 - self.mins.x as i64),
            half_floor(self.maxs.y as i64 - self.mins.y as i64),
            half_floor(self.maxs.z as i64 - self.mins.z as i64),
        )
    }

    /// The size on each axis.
    pub fn extents(&self) -> (e: Vector)
        ensures
            e == self.extents_spec(),
            e.x == self.maxs.x - self.mins.x,
            e.y == self.maxs.y - self.mins.y,
            e.z == self.maxs.z - self.mins.z,
    {
        self.mins.displacement_to(&self.maxs)
    }

    /// Whether `other` lies within `self` or equals it.
    pub fn contains(&self, other: &Aabb) -> (inside: bool)
        ensures
            inside == self.contains_spec(*other),
    {
        self.mins.x <= other.mins.x && self.mins.y <= other.mins.y && self.mins.z <= other.mins.z
            && self.maxs.x >= other.maxs.x && self.maxs.y >= other.maxs.y && self.maxs.z
            >= other.maxs.z
    }
}

} // verus!
