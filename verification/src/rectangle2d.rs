//! Axis-aligned rectangles over grid points, with epsilon-aware
//! containment tests.
use crate::numerics::Rat;
use crate::point2d::Point2d;
use vstd::prelude::*;

verus! {

/// The rectangle spanned by two corner points.
#[derive(Clone, Copy, Debug, PartialEq, Eq, Structural)]
pub struct Rectangle2D {
    pub min: Point2d,
    pub max: Point2d,
}

/// The rational with the value of an integer coordinate.
pub open spec fn int_rat(v: i64) -> Rat {
    Rat { num: v, den: 1 as i64 }
}

impl Rectangle2D {
    /// The rectangle from the origin to `(width, height)`.
    pub fn new_width_height(width: i64, height: i64) -> (r: Rectangle2D)
        ensures
            r.min == (Point2d { x: 0 as i64, y: 0 as i64 }),
            r.max == (Point2d { x: width, y: height }),
    {
        Rectangle2D { min: Point2d::origin(), max: Point2d { x: width, y: height } }
    }

    /// The absolute horizontal extent.
    pub fn width(&self) -> (r: i64)
        requires
            self.min.in_range(),
            self.max.in_range(),
        ensures
            r == crate::numerics::abs_int(self.max.x - self.min.x),
    {
        let d: i64 = self.max.x - self.min.x;
        if d < 0 {
            -d
        } else {
            d
        }
    }

    /// The absolute vertical extent.
    pub fn height(&self) -> (r: i64)
        requires
            self.min.in_range(),
            self.max.in_range(),
        ensures
            r == crate::numerics::abs_int(self.max.y - self.min.y),
    {
        let d: i64 = self.max.y - self.min.y;
        if d < 0 {
            -d
        } else {
            d
        }
    }

    /// Strict containment within tolerance: the point clears every edge by
    /// more than the tolerance allows.
    pub fn contains_open(&self, point: Point2d, epsilon: Rat) -> (r: bool)
        requires
            epsilon.wf(),
            epsilon.num >= 0,
            epsilon.bounded(),
        ensures
            r == ({
                &&& !crate::numerics::spec_approx_equal_less(
                    int_rat(point.x),
                    int_rat(self.min.x),
                    epsilon,
                )
                &&& !crate::numerics::spec_approx_equal_less(
                    int_rat(point.y),
                    int_rat(self.min.y),
                    epsilon,
                )
                &&& crate::numerics::spec_approx_less(
                    int_rat(point.x),
                    int_rat(self.max.x),
                    epsilon,
                )
                &&& crate::numerics::spec_approx_less(
                    int_rat(point.y),
                    int_rat(self.max.y),
                    epsilon,
                )
            }),
    {
        if approx_equal_less_int(point.x, self.min.x, epsilon) || approx_equal_less_int(
            point.y,
            self.min.y,
            epsilon,
        ) {
            return false;
        }
        approx_less_int(point.x, self.max.x, epsilon) && approx_less_int(
            point.y,
            self.max.y,
            epsilon,
        )
    }

    /// Containment within tolerance, edges included.
    pub fn contains_closed(&self, point: &Point2d, epsilon: Rat) -> (r: bool)
        requires
            epsilon.wf(),
            epsilon.num >= 0,
            epsilon.bounded(),
        ensures
            r == ({
                &&& crate::numerics::spec_approx_equal_greater(
                    int_rat(point.x),
                    int_rat(self.min.x),
                    epsilon,
                )
                &&& crate::numerics::spec_approx_equal_greater(
                    int_rat(point.y),
                    int_rat(self.min.y),
                    epsilon,
                )
                &&& crate::numerics::spec_approx_equal_less(
                    int_rat(point.y),
                    int_rat(self.max.y),
                    epsilon,
                )
                &&& crate::numerics::spec_approx_equal_less(
                    int_rat(point.x),
                    int_rat(self.max.x),
                    epsilon,
                )
            }),
    {
        approx_equal_greater_int(point.x, self.min.x, epsilon) && approx_equal_greater_int(
            point.y,
            self.min.y,
            epsilon,
        ) && approx_equal_less_int(point.y, self.max.y, epsilon) && approx_equal_less_int(
            point.x,
            self.max.x,
            epsilon,
        )
    }
}

/// `a` less than or approximately equal to `b`, over integers.
pub fn approx_equal_less_int(a: i64, b: i64, epsilon: Rat) -> (r: bool)
    requires
        epsilon.wf(),
        epsilon.num >= 0,
        epsilon.bounded(),
    ensures
        r == crate::numerics::spec_approx_equal_less(int_rat(a), int_rat(b), epsilon),
{
    if crate::numerics::approx_equal_int(a, b, epsilon) {
        return true;
    }
    proof {
        assert(a * 1 == a && b * 1 == b) by (nonlinear_arith);
    }
    a < b
}

/// `a` strictly less than `b` within tolerance, over integers.
pub fn approx_less_int(a: i64, b: i64, epsilon: Rat) -> (r: bool)
    requires
        epsilon.wf(),
        epsilon.num >= 0,
        epsilon.bounded(),
    ensures
        r == crate::numerics::spec_approx_less(int_rat(a), int_rat(b), epsilon),
{
    if crate::numerics::approx_equal_int(a, b, epsilon) {
        return false;
    }
    proof {
        assert(a * 1 == a && b * 1 == b) by (nonlinear_arith);
    }
    a < b
}

/// `a` greater than or approximately equal to `b`, over integers.
pub fn approx_equal_greater_int(a: i64, b: i64, epsilon: Rat) -> (r: bool)
    requires
        epsilon.wf(),
        epsilon.num >= 0,
        epsilon.bounded(),
    ensures
        r == crate::numerics::spec_approx_equal_greater(int_rat(a), int_rat(b), epsilon),
{
    if crate::numerics::approx_equal_int(a, b, epsilon) {
        return true;
    }
    proof {
        assert(a * 1 == a && b * 1 == b) by (nonlinear_arith);
    }
    b < a
}

} // verus!
