//! A directed line segment in the plane.

use vstd::prelude::*;
use crate::plane::Point;

verus! {

/// The directed segment from `a` to `b`.
#[derive(Debug, Clone, Copy, PartialEq, Eq, Structural)]
pub struct Segment {
    pub a: Point,
    pub b: Point,
}

impl Segment {
    /// The segment from `a` to `b`.
    pub fn new(a: Point, b: Point) -> (s: Self)
        ensures
            s.a == a,
            s.b == b,
    {
        Self { a, b }
    }
}

} // verus!
