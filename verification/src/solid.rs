//! Boxes in space.

use vstd::prelude::*;

pub mod aabb;
pub mod laws;

verus! {

/// The number of axes of space.
pub const AXES: usize = 3;

/// A position in space, in fixed-point units.
#[derive(Debug, Clone, Copy, PartialEq, Eq, Structural)]
pub struct Point {
    pub x: i32,
    pub y: i32,
    pub z: i32,
}

/// A displacement in space, in fixed-point units.
#[derive(Debug, Clone, Copy, PartialEq, Eq, Structural)]
pub struct Vector {
    pub x: i64,
    pub y: i64,
    pub z: i64,
}

impl Point {
    /// The point with the given coordinates.
    pub fn new(x: i32, y: i32, z: i32) -> (p: Self)
        ensures
            p == (Point { x, y, z }),
    {
        Point { x, y, z }
    }

    /// The coordinate on axis `i`: `x` on axis 0, `y` on axis 1, `z` on axis 2.
    pub open spec fn coord(self, i: int) -> int {
        if i == 0 {
            self.x as int
        } else if i == 1 {
            self.y as int
        } else {
            self.z as int
        }
    }

    /// The coordinate on axis `i`.
    pub fn get(&self, i: usize) -> (c: i32)
        requires
            i < AXES,
        ensures
            c == self.coord(i as int),
    {
        if i == 0 {
            self.x
        } else if i == 1 {
            self.y
        } else {
            self.z
        }
    }

    /// The displacement that leads from `self` to `to`.
    pub open spec fn displacement_to_spec(self, to: Point) -> Vector {
        Vector { x: (to.x - self.x) as i64, y: (to.y - self.y) as i64, z: (to.z - self.z) as i64 }
    }

    /// The displacement that leads from `self` to `to`.
    pub fn displacement_to(&self, to: &Point) -> (v: Vector)
        ensures
            v == self.displacement_to_spec(*to),
            v.x == to.x - self.x,
            v.y == to.y - self.y,
            v.z == to.z - self.z,
    {
        Vector {
            x: to.x as i64 - self.x as i64,
            y: to.y as i64 - self.y as i64,
            z: to.z as i64 - self.z as i64,
        }
    }
}

impl Vector {
    /// The displacement with the given components.
    pub fn new(x: i64, y: i64, z: i64) -> (v: Self)
        ensures
            v == (Vector { x, y, z }),
    {
        Vector { x, y, z }
    }

    /// The component on axis `i`: `x` on axis 0, `y` on axis 1, `z` on axis 2.
    pub open spec fn coord(self, i: int) -> int {
        if i == 0 {
            self.x as int
        } else if i == 1 {
            self.y as int
        } else {
            self.z as int
        }
    }

    /// The component on axis `i`.
    pub fn get(&self, i: usize) -> (c: i64)
        requires
            i < AXES,
        ensures
            c == self.coord(i as int),
    {
        if i == 0 {
            self.x
        } else if i == 1 {
            self.y
        } else {
            self.z
        }
    }
}

} // verus!
