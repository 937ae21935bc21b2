//! Points of the plane.

use vstd::prelude::*;

verus! {

/// A position in the plane. Each coordinate is the bit pattern of an
/// IEEE-754 single-precision number.
#[derive(Clone, Copy, Debug, PartialEq, Eq, Structural)]
pub struct Point {
    pub x: u32,
    pub y: u32,
}

impl Point {
    /// The point whose two coordinates are positive zero.
    pub open spec fn origin() -> Point {
        Point { x: 0, y: 0 }
    }

    pub fn new(x: u32, y: u32) -> (p: Point)
        ensures
            p == (Point { x, y }),
    {
        Point { x, y }
    }

    pub fn zero() -> (p: Point)
        ensures
            p == Point::origin(),
    {
        Point { x: 0, y: 0 }
    }
}

} // verus!
