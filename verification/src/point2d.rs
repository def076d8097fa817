//! Points and displacement vectors on the integer grid, and exact rational
//! points for computed intersections.
use crate::numerics::{spec_approx_equal, Rat};
use vstd::prelude::*;

verus! {

/// Largest coordinate magnitude the kernel supports.  Within this range
/// every intermediate product of the intersection solver fits a machine
/// integer, numerators of computed intersection points included.
pub const COORD_LIMIT: i64 = 524288;

/// A grid point.
#[derive(Clone, Copy, Debug, PartialEq, Eq, Structural, Hash)]
pub struct Point2d {
    pub x: i64,
    pub y: i64,
}

/// A displacement between two grid points.
#[derive(Clone, Copy, Debug, PartialEq, Eq, Structural)]
pub struct Vector2D {
    pub x: i64,
    pub y: i64,
}

/// An exact rational point `(xn / den, yn / den)` with a common positive
/// denominator, as produced by the segment-intersection solver.
#[derive(Clone, Copy, Debug)]
pub struct RatPoint2d {
    pub xn: i64,
    pub yn: i64,
    pub den: i64,
}

/// The scalar cross product (z component) of two displacement vectors.
pub open spec fn cross_spec(v1: Vector2D, v2: Vector2D) -> int {
    v1.x * v2.y - v1.y * v2.x
}

impl Point2d {
    /// Both coordinates within the supported range.
    pub open spec fn in_range(self) -> bool {
        &&& -COORD_LIMIT <= self.x <= COORD_LIMIT
        &&& -COORD_LIMIT <= self.y <= COORD_LIMIT
    }

    pub fn origin() -> (r: Point2d)
        ensures
            r.x == 0,
            r.y == 0,
    {
        Point2d { x: 0, y: 0 }
    }

    pub fn new(x: i64, y: i64) -> (r: Point2d)
        ensures
            r == (Point2d { x, y }),
    {
        Point2d { x, y }
    }

    /// The displacement from `other` to `self`.
    pub fn sub(self, other: Point2d) -> (r: Vector2D)
        requires
            self.in_range(),
            other.in_range(),
        ensures
            r.x == self.x - other.x,
            r.y == self.y - other.y,
    {
        Vector2D { x: self.x - other.x, y: self.y - other.y }
    }

    /// Coordinate-wise approximate equality under the relative tolerance
    /// `epsilon`.
    pub fn approx_equals(&self, other: &Point2d, epsilon: Rat) -> (r: bool)
        requires
            epsilon.wf(),
            epsilon.num >= 0,
            epsilon.bounded(),
        ensures
            r == (spec_approx_equal(
                (Rat { num: self.x, den: 1 as i64 }),
                (Rat { num: other.x, den: 1 as i64 }),
                epsilon,
            ) && spec_approx_equal(
                (Rat { num: self.y, den: 1 as i64 }),
                (Rat { num: other.y, den: 1 as i64 }),
                epsilon,
            )),
    {
        crate::numerics::approx_equal_int(self.x, other.x, epsilon) && crate::numerics::approx_equal_int(
            self.y,
            other.y,
            epsilon,
        )
    }
}

impl Vector2D {
    /// Components within twice the coordinate range, as holds of any
    /// difference of in-range points.
    pub open spec fn bounded(self) -> bool {
        &&& -2 * COORD_LIMIT <= self.x <= 2 * COORD_LIMIT
        &&& -2 * COORD_LIMIT <= self.y <= 2 * COORD_LIMIT
    }

    /// Component-wise vector sum.
    pub fn add(self, other: Vector2D) -> (r: Vector2D)
        requires
            self.bounded(),
            other.bounded(),
        ensures
            r.x == self.x + other.x,
            r.y == self.y + other.y,
    {
        Vector2D { x: self.x + other.x, y: self.y + other.y }
    }

    /// Translates a point by this displacement.
    pub fn translate_point(&self, point: Point2d) -> (r: Point2d)
        requires
            self.bounded(),
            point.in_range(),
        ensures
            r.x == point.x + self.x,
            r.y == point.y + self.y,
    {
        Point2d { x: point.x + self.x, y: point.y + self.y }
    }

    /// The scalar cross product; its sign is the orientation of the pair.
    pub fn cross(&self, other: &Vector2D) -> (r: i64)
        requires
            self.bounded(),
            other.bounded(),
        ensures
            r == cross_spec(*self, *other),
    {
        proof {
            crate::numerics::lemma_mul_range(self.x as int, other.y as int, 1048576, 1048576);
            crate::numerics::lemma_mul_range(self.y as int, other.x as int, 1048576, 1048576);
            assert(-0x10000000000 <= self.x * other.y <= 0x10000000000);
            assert(-0x10000000000 <= self.y * other.x <= 0x10000000000);
        }
        self.x * other.y - self.y * other.x
    }
}

impl RatPoint2d {
    /// A well-formed rational point has a positive denominator.
    pub open spec fn wf(self) -> bool {
        self.den > 0
    }

    /// Value equality of the two coordinates as rationals.
    pub open spec fn eq_spec(self, other: RatPoint2d) -> bool {
        &&& self.xn * other.den == other.xn * self.den
        &&& self.yn * other.den == other.yn * self.den
    }

    /// The rational point at a grid point.
    pub fn from_point(p: Point2d) -> (r: RatPoint2d)
        ensures
            r == (RatPoint2d { xn: p.x, yn: p.y, den: 1 as i64 }),
            r.wf(),
    {
        RatPoint2d { xn: p.x, yn: p.y, den: 1 }
    }

    /// Decides value equality; total on well-formed points.
    pub fn eq_value(&self, other: &RatPoint2d) -> (r: bool)
        requires
            self.wf(),
            other.wf(),
        ensures
            r == self.eq_spec(*other),
    {
        proof {
            crate::numerics::lemma_mul_range(
                self.xn as int,
                other.den as int,
                0x8000000000000000,
                0x8000000000000000,
            );
            crate::numerics::lemma_mul_range(
                other.xn as int,
                self.den as int,
                0x8000000000000000,
                0x8000000000000000,
            );
            crate::numerics::lemma_mul_range(
                self.yn as int,
                other.den as int,
                0x8000000000000000,
                0x8000000000000000,
            );
            crate::numerics::lemma_mul_range(
                other.yn as int,
                self.den as int,
                0x8000000000000000,
                0x8000000000000000,
            );
        }
        (self.xn as i128) * (other.den as i128) == (other.xn as i128) * (self.den as i128) && (
        self.yn as i128) * (other.den as i128) == (other.yn as i128) * (self.den as i128)
    }
}

} // verus!
