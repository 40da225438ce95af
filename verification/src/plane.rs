//! Boxes, segments and line clipping in the plane.

use vstd::prelude::*;
use crate::scalar::Ratio;

pub mod aabb;
pub mod laws;
pub mod ray;
pub mod segment;
pub mod slab;

verus! {

/// The number of axes of the plane.
pub const AXES: usize = 2;

/// A position in the plane, in fixed-point units.
#[derive(Debug, Clone, Copy, PartialEq, Eq, Structural)]
pub struct Point {
    pub x: i32,
    pub y: i32,
}

/// A displacement in the plane, in fixed-point units.
#[derive(Debug, Clone, Copy, PartialEq, Eq, Structural)]
pub struct Vector {
    pub x: i64,
    pub y: i64,
}

impl Point {
    /// The point with the given coordinates.
    pub fn new(x: i32, y: i32) -> (p: Self)
        ensures
            p == (Point { x, y }),
    {
        Point { x, y }
    }

    /// The coordinate on axis `i`: `x` on axis 0, `y` on axis 1.
    pub open spec fn coord(self, i: int) -> int {
        if i == 0 {
            self.x as int
        } else {
            self.y as int
        }
    }

    /// The coordinate on axis `i`.
    pub fn get(&self, i: usize) -> (c: i32)
        requires
            i < AXES,
        ensures
            c == self.coord(i as int),
    {
        if i == 0 {
            self.x
        } else {
            self.y
        }
    }

    /// The displacement that leads from `self` to `to`.
    pub open spec fn displacement_to_spec(self, to: Point) -> Vector {
        Vector { x: (to.x - self.x) as i64, y: (to.y - self.y) as i64 }
    }

    /// The displacement that leads from `self` to `to`.
    pub fn displacement_to(&self, to: &Point) -> (v: Vector)
        ensures
            v == self.displacement_to_spec(*to),
            v.x == to.x - self.x,
            v.y == to.y - self.y,
    {
        Vector { x: to.x as i64 - self.x as i64, y: to.y as i64 - self.y as i64 }
    }
}

impl Point {
    /// The lattice point at or just below `self + t * dir` on each axis.
    pub open spec fn advanced_spec(self, dir: Vector, t: Ratio) -> Point {
        Point {
            x: (self.x + (dir.x * t.num) / (t.den as int)) as i32,
            y: (self.y + (dir.y * t.num) / (t.den as int)) as i32,
        }
    }

    /// The point reached from `self` after the part `t` of the displacement
    /// `dir`, each coordinate rounded down to the lattice.
    pub fn advanced(&self, dir: &Vector, t: &Ratio) -> (p: Point)
        requires
            t.wf(),
            t.in_unit(),
            i32::MIN <= self.x + dir.x <= i32::MAX,
            i32::MIN <= self.y + dir.y <= i32::MAX,
        ensures
            p == self.advanced_spec(*dir, *t),
            p.x == self.x + (dir.x * t.num) / (t.den as int),
            p.y == self.y + (dir.y * t.num) / (t.den as int),
    {
        let x: i64 = self.x as i64 + t.scale_floor(dir.x);
        let y: i64 = self.y as i64 + t.scale_floor(dir.y);
        Point { x: x as i32, y: y as i32 }
    }
}

impl Vector {
    /// The displacement with the given components.
    pub fn new(x: i64, y: i64) -> (v: Self)
        ensures
            v == (Vector { x, y }),
    {
        Vector { x, y }
    }

    /// The component on axis `i`: `x` on axis 0, `y` on axis 1.
    pub open spec fn coord(self, i: int) -> int {
        if i == 0 {
            self.x as int
        } else {
            self.y as int
        }
    }

    /// The component on axis `i`.
    pub fn get(&self, i: usize) -> (c: i64)
        requires
            i < AXES,
        ensures
            c == self.coord(i as int),
    {
        if i == 0 {
            self.x
        } else {
            self.y
        }
    }
}

} // verus!
