//! The bounding extents of a region of the grid.
use crate::point2d::Point2d;
use vstd::prelude::*;

verus! {

/// A bounding box between two corners.
#[derive(Clone, Copy, Debug, PartialEq, Eq, Structural)]
pub struct Extents2d {
    pub min: Point2d,
    pub max: Point2d,
}

impl Extents2d {
    /// The square of the given side length anchored at the origin.
    pub fn new_square(size: i64) -> (r: Extents2d)
        ensures
            r.min == (Point2d { x: 0 as i64, y: 0 as i64 }),
            r.max == (Point2d { x: size, y: size }),
    {
        let min: Point2d = Point2d::origin();
        let max: Point2d = Point2d::new(size, size);
        Extents2d { min, max }
    }
}

} // verus!
