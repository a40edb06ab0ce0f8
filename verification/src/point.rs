//! Sample points of the solid's surface.
use vstd::prelude::*;

verus! {

/// The largest coordinate, in absolute value, that a single-axis turn accepts.
pub const AXIS_LIMIT: i64 = 0x2000_0000_0000_0000;

/// The largest coordinate, in absolute value, that a full three-axis rotation accepts.
pub const COORD_LIMIT: i64 = 0x0800_0000_0000_0000;

/// One sample of the surface: a fixed-point position and the symbol of its face.
#[derive(Clone, Copy, Debug, PartialEq, Eq, Structural)]
pub struct Point {
    pub x: i64,
    pub y: i64,
    pub z: i64,
    pub d: char,
}

/// The mathematical value of a [`Point`]: unbounded coordinates and a symbol.
pub struct Sample {
    pub x: int,
    pub y: int,
    pub z: int,
    pub d: char,
}

impl Sample {
    /// Every coordinate lies in `[-bound, bound]`.
    pub open spec fn within(self, bound: int) -> bool {
        &&& -bound <= self.x <= bound
        &&& -bound <= self.y <= bound
        &&& -bound <= self.z <= bound
    }
}

impl View for Point {
    type V = Sample;

    open spec fn view(&self) -> Sample {
        Sample { x: self.x as int, y: self.y as int, z: self.z as int, d: self.d }
    }
}

impl Point {
    /// Every coordinate lies in `[-bound, bound]`.
    pub open spec fn within(&self, bound: int) -> bool {
        self@.within(bound)
    }
}

/// Every point of the cloud lies within the range that a full rotation accepts.
pub open spec fn cloud_in_range(points: Seq<Point>) -> bool {
    forall|i: int| 0 <= i < points.len() ==> (#[trigger] points[i]).within(COORD_LIMIT as int)
}

/// The mathematical values of a sequence of points, in order.
pub open spec fn samples(points: Seq<Point>) -> Seq<Sample> {
    Seq::new(points.len(), |i: int| points[i]@)
}

} // verus!
