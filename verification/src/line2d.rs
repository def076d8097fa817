//! Line segments between grid points: incidence and exact segment-segment
//! intersection by the determinant solve of the two-parameter system.
use crate::numerics::{abs_int, lemma_mul_range, Rat};
use crate::point2d::{cross_spec, Point2d, RatPoint2d, Vector2D, COORD_LIMIT};
use vstd::prelude::*;

verus! {

/// A segment from `start` to `end`.  The value is directed; geometric
/// predicates treat it as the unordered pair of its endpoints.
#[derive(Clone, Copy, Debug, PartialEq, Eq, Structural, Hash)]
pub struct Line2D {
    pub start: Point2d,
    pub end: Point2d,
}

/// The displacement along a segment, start to end.
pub open spec fn seg_dir(l: Line2D) -> Vector2D {
    Vector2D { x: (l.end.x - l.start.x) as i64, y: (l.end.y - l.start.y) as i64 }
}

/// The rational point `p` lies on the supporting line of `l`: the cross
/// product of its offset from `start` with the direction is zero, after
/// scaling by the point's denominator.
pub open spec fn on_line_spec(p: RatPoint2d, l: Line2D) -> bool {
    (p.xn - l.start.x * p.den) * (l.end.y - l.start.y) - (p.yn - l.start.y * p.den) * (l.end.x
        - l.start.x) == 0
}

/// The determinant of the two segments' directions; zero exactly for
/// parallel or degenerate pairs.
pub open spec fn det_spec(a: Line2D, b: Line2D) -> int {
    (a.end.x - a.start.x) * (b.end.y - b.start.y) - (b.end.x - b.start.x) * (a.end.y - a.start.y)
}

/// Numerator of the parameter of the intersection along `b`.
pub open spec fn s_num_spec(a: Line2D, b: Line2D) -> int {
    (a.end.x - a.start.x) * (a.start.y - b.start.y) - (a.end.y - a.start.y) * (a.start.x
        - b.start.x)
}

/// Numerator of the parameter of the intersection along `a`.
pub open spec fn t_num_spec(a: Line2D, b: Line2D) -> int {
    (b.end.x - b.start.x) * (a.start.y - b.start.y) - (b.end.y - b.start.y) * (a.start.x
        - b.start.x)
}

/// The single intersection point of two segments, when there is one: both
/// segments in range and non-degenerate, directions not parallel, and both
/// parameters of the solved system within `[0, 1]`.  The point is returned
/// exactly, over the (sign-normalized) determinant as denominator.
pub open spec fn intersect_spec(a: Line2D, b: Line2D) -> Option<RatPoint2d> {
    if !a.in_range() || !b.in_range() {
        Option::None
    } else if a.start == a.end || b.start == b.end {
        Option::None
    } else if det_spec(a, b) == 0 {
        Option::None
    } else {
        let d = det_spec(a, b);
        let dd = abs_int(d);
        let sn = if d < 0 {
            -s_num_spec(a, b)
        } else {
            s_num_spec(a, b)
        };
        let tn = if d < 0 {
            -t_num_spec(a, b)
        } else {
            t_num_spec(a, b)
        };
        if 0 <= sn <= dd && 0 <= tn <= dd {
            Option::Some(
                RatPoint2d {
                    xn: (a.start.x * dd + tn * (a.end.x - a.start.x)) as i64,
                    yn: (a.start.y * dd + tn * (a.end.y - a.start.y)) as i64,
                    den: dd as i64,
                },
            )
        } else {
            Option::None
        }
    }
}

/// The core algebraic identity behind Cramer's rule for the two-segment
/// system: the solved point, written over the raw determinant, lies on the
/// second segment's supporting line.
proof fn lemma_cramer_core(
    wx: int,
    wy: int,
    dx1: int,
    dy1: int,
    dx2: int,
    dy2: int,
    d: int,
    tn: int,
)
    requires
        d == dx1 * dy2 - dx2 * dy1,
        tn == dx2 * wy - dy2 * wx,
    ensures
        (wx * d + tn * dx1) * dy2 - (wy * d + tn * dy1) * dx2 == 0,
{
    assert((wx * d + tn * dx1) * dy2 == wx * d * dy2 + tn * dx1 * dy2) by (nonlinear_arith);
    assert((wy * d + tn * dy1) * dx2 == wy * d * dx2 + tn * dy1 * dx2) by (nonlinear_arith);
    assert(wx * d * dy2 - wy * d * dx2 == d * (wx * dy2 - wy * dx2)) by (nonlinear_arith);
    assert(tn * dx1 * dy2 - tn * dy1 * dx2 == tn * (dx1 * dy2 - dy1 * dx2)) by (nonlinear_arith);
    assert(wx * dy2 - wy * dx2 == -tn) by (nonlinear_arith)
        requires
            tn == dx2 * wy - dy2 * wx,
    ;
    assert(d * (wx * dy2 - wy * dx2) == -(d * tn)) by (nonlinear_arith)
        requires
            wx * dy2 - wy * dx2 == -tn,
    ;
    assert(tn * (dx1 * dy2 - dy1 * dx2) == tn * d) by (nonlinear_arith)
        requires
            d == dx1 * dy2 - dx2 * dy1,
    ;
    assert(tn * d == d * tn) by (nonlinear_arith);
}

/// The two postconditions of Cramer's rule that the kernel relies on: the
/// solved point, scaled by the sign-normalized determinant, lies on the
/// supporting lines of both segments.
proof fn lemma_cramer(
    ax: int,
    ay: int,
    bx: int,
    by_: int,
    dx1: int,
    dy1: int,
    dx2: int,
    dy2: int,
    d: int,
    tn: int,
    dd: int,
    tnn: int,
    xn: int,
    yn: int,
)
    requires
        d == dx1 * dy2 - dx2 * dy1,
        tn == dx2 * (ay - by_) - dy2 * (ax - bx),
        (dd == d && tnn == tn) || (dd == -d && tnn == -tn),
        xn == ax * dd + tnn * dx1,
        yn == ay * dd + tnn * dy1,
    ensures
        (xn - ax * dd) * dy1 - (yn - ay * dd) * dx1 == 0,
        (xn - bx * dd) * dy2 - (yn - by_ * dd) * dx2 == 0,
{
    let wx = ax - bx;
    let wy = ay - by_;
    assert((xn - ax * dd) * dy1 - (yn - ay * dd) * dx1 == 0) by (nonlinear_arith)
        requires
            xn == ax * dd + tnn * dx1,
            yn == ay * dd + tnn * dy1,
    ;
    assert(xn - bx * dd == wx * dd + tnn * dx1) by (nonlinear_arith)
        requires
            xn == ax * dd + tnn * dx1,
            wx == ax - bx,
    ;
    assert(yn - by_ * dd == wy * dd + tnn * dy1) by (nonlinear_arith)
        requires
            yn == ay * dd + tnn * dy1,
            wy == ay - by_,
    ;
    lemma_cramer_core(wx, wy, dx1, dy1, dx2, dy2, d, tn);
    if dd == d && tnn == tn {
        assert((xn - bx * dd) * dy2 - (yn - by_ * dd) * dx2 == 0) by (nonlinear_arith)
            requires
                xn - bx * dd == wx * d + tn * dx1,
                yn - by_ * dd == wy * d + tn * dy1,
                (wx * d + tn * dx1) * dy2 - (wy * d + tn * dy1) * dx2 == 0,
        ;
    } else {
        assert(xn - bx * dd == -(wx * d + tn * dx1)) by (nonlinear_arith)
            requires
                xn - bx * dd == wx * dd + tnn * dx1,
                dd == -d,
                tnn == -tn,
        ;
        assert(yn - by_ * dd == -(wy * d + tn * dy1)) by (nonlinear_arith)
            requires
                yn - by_ * dd == wy * dd + tnn * dy1,
                dd == -d,
                tnn == -tn,
        ;
        assert((xn - bx * dd) * dy2 - (yn - by_ * dd) * dx2 == 0) by (nonlinear_arith)
            requires
                xn - bx * dd == -(wx * d + tn * dx1),
                yn - by_ * dd == -(wy * d + tn * dy1),
                (wx * d + tn * dx1) * dy2 - (wy * d + tn * dy1) * dx2 == 0,
        ;
    }
}

impl Line2D {
    /// The same segment with its endpoints exchanged.
    pub open spec fn reverse_spec(self) -> Line2D {
        Line2D { start: self.end, end: self.start }
    }

    /// Both endpoints within the supported coordinate range.
    pub open spec fn in_range(self) -> bool {
        self.start.in_range() && self.end.in_range()
    }

    pub fn new(start: Point2d, end: Point2d) -> (r: Line2D)
        ensures
            r == (Line2D { start, end }),
    {
        Line2D { start, end }
    }

    /// A segment from loose coordinates.
    pub fn new_flat(x1: i64, y1: i64, x2: i64, y2: i64) -> (r: Line2D)
        ensures
            r == (Line2D {
                start: Point2d { x: x1, y: y1 },
                end: Point2d { x: x2, y: y2 },
            }),
    {
        Line2D { start: Point2d { x: x1, y: y1 }, end: Point2d { x: x2, y: y2 } }
    }

    /// The same segment, walked the other way.
    pub fn reverse(&self) -> (r: Line2D)
        ensures
            r == self.reverse_spec(),
    {
        Line2D { start: self.end, end: self.start }
    }

    /// The displacement from start to end.
    pub fn direction(&self) -> (r: Vector2D)
        requires
            self.in_range(),
        ensures
            r == seg_dir(*self),
            r.bounded(),
    {
        self.end.sub(self.start)
    }

    /// Checks that both endpoints are within the supported range.
    pub fn is_in_range(&self) -> (r: bool)
        ensures
            r == self.in_range(),
    {
        -COORD_LIMIT <= self.start.x && self.start.x <= COORD_LIMIT && -COORD_LIMIT <= self.start.y
            && self.start.y <= COORD_LIMIT && -COORD_LIMIT <= self.end.x && self.end.x
            <= COORD_LIMIT && -COORD_LIMIT <= self.end.y && self.end.y <= COORD_LIMIT
    }

    /// Approximate equality of segments as unordered endpoint pairs: the
    /// endpoints match within `epsilon` in either order.
    pub fn approx_equals(&self, other: &Line2D, epsilon: Rat) -> (r: bool)
        requires
            epsilon.wf(),
            epsilon.num >= 0,
            epsilon.bounded(),
        ensures
            r == (spec_pt_approx(self.start, other.start, epsilon) && spec_pt_approx(
                self.end,
                other.end,
                epsilon,
            ) || spec_pt_approx(self.start, other.end, epsilon) && spec_pt_approx(
                self.end,
                other.start,
                epsilon,
            )),
    {
        (self.start.approx_equals(&other.start, epsilon) && self.end.approx_equals(
            &other.end,
            epsilon,
        )) || (self.start.approx_equals(&other.end, epsilon) && self.end.approx_equals(
            &other.start,
            epsilon,
        ))
    }

    /// Exact incidence of a rational point with this segment's supporting
    /// line.
    pub fn intersects_point(&self, point: &RatPoint2d) -> (r: bool)
        requires
            self.in_range(),
            point.wf(),
        ensures
            r == on_line_spec(*point, *self),
    {
        proof {
            lemma_mul_range(self.start.x as int, point.den as int, 524288, 0x8000000000000000);
            lemma_mul_range(self.start.y as int, point.den as int, 524288, 0x8000000000000000);
        }
        let sxd: i128 = (self.start.x as i128) * (point.den as i128);
        let syd: i128 = (self.start.y as i128) * (point.den as i128);
        let offx: i128 = (point.xn as i128) - sxd;
        let offy: i128 = (point.yn as i128) - syd;
        let dx: i128 = (self.end.x - self.start.x) as i128;
        let dy: i128 = (self.end.y - self.start.y) as i128;
        proof {
            lemma_mul_range(offx as int, dy as int, 0x10000000000000000000000, 1048576);
            lemma_mul_range(offy as int, dx as int, 0x10000000000000000000000, 1048576);
            assert(offx * dy - offy * dx == (point.xn - self.start.x * point.den) * (self.end.y
                - self.start.y) - (point.yn - self.start.y * point.den) * (self.end.x
                - self.start.x)) by (nonlinear_arith)
                requires
                    offx == point.xn - self.start.x * point.den,
                    offy == point.yn - self.start.y * point.den,
                    dx == self.end.x - self.start.x,
                    dy == self.end.y - self.start.y,
            ;
        }
        offx * dy - offy * dx == 0
    }

    /// The exact intersection point of two segments, when the pair has one:
    /// see `intersect_spec`.  Parallel, collinear, degenerate and
    /// out-of-range pairs report no point.  A returned point lies on the
    /// supporting lines of both segments.
    pub fn intersect(&self, other: &Line2D) -> (r: Option<RatPoint2d>)
        ensures
            r == intersect_spec(*self, *other),
            r matches Some(p) ==> p.wf() && on_line_spec(p, *self) && on_line_spec(p, *other),
    {
        if !self.is_in_range() || !other.is_in_range() {
            return None;
        }
        if (self.start.x == self.end.x && self.start.y == self.end.y) || (other.start.x
            == other.end.x && other.start.y == other.end.y) {
            return None;
        }
        let d1 = self.direction();
        let d2 = other.direction();
        let d: i64 = d1.cross(&d2);
        if d == 0 {
            return None;
        }
        let w = Vector2D { x: self.start.x - other.start.x, y: self.start.y - other.start.y };
        let sn0: i64 = d1.cross(&w);
        let tn0: i64 = d2.cross(&w);
        proof {
            lemma_mul_range(d1.x as int, d2.y as int, 1048576, 1048576);
            lemma_mul_range(d1.y as int, d2.x as int, 1048576, 1048576);
            lemma_mul_range(d1.x as int, w.y as int, 1048576, 1048576);
            lemma_mul_range(d1.y as int, w.x as int, 1048576, 1048576);
            lemma_mul_range(d2.x as int, w.y as int, 1048576, 1048576);
            lemma_mul_range(d2.y as int, w.x as int, 1048576, 1048576);
        }
        let dd: i64 = if d < 0 {
            -d
        } else {
            d
        };
        let sn: i64 = if d < 0 {
            -sn0
        } else {
            sn0
        };
        let tn: i64 = if d < 0 {
            -tn0
        } else {
            tn0
        };
        proof {
            let a = *self;
            let b = *other;
            assert(d as int == det_spec(a, b)) by (nonlinear_arith)
                requires
                    d1.x == a.end.x - a.start.x,
                    d1.y == a.end.y - a.start.y,
                    d2.x == b.end.x - b.start.x,
                    d2.y == b.end.y - b.start.y,
                    d as int == d1.x * d2.y - d1.y * d2.x,
                    det_spec(a, b) == (a.end.x - a.start.x) * (b.end.y - b.start.y) - (b.end.x
                        - b.start.x) * (a.end.y - a.start.y),
            ;
            assert(sn0 as int == s_num_spec(a, b)) by (nonlinear_arith)
                requires
                    d1.x == a.end.x - a.start.x,
                    d1.y == a.end.y - a.start.y,
                    w.x == a.start.x - b.start.x,
                    w.y == a.start.y - b.start.y,
                    sn0 as int == d1.x * w.y - d1.y * w.x,
                    s_num_spec(a, b) == (a.end.x - a.start.x) * (a.start.y - b.start.y) - (a.end.y
                        - a.start.y) * (a.start.x - b.start.x),
            ;
            assert(tn0 as int == t_num_spec(a, b)) by (nonlinear_arith)
                requires
                    d2.x == b.end.x - b.start.x,
                    d2.y == b.end.y - b.start.y,
                    w.x == a.start.x - b.start.x,
                    w.y == a.start.y - b.start.y,
                    tn0 as int == d2.x * w.y - d2.y * w.x,
                    t_num_spec(a, b) == (b.end.x - b.start.x) * (a.start.y - b.start.y) - (b.end.y
                        - b.start.y) * (a.start.x - b.start.x),
            ;
            assert(dd as int == abs_int(det_spec(a, b)));
        }
        if 0 <= sn && sn <= dd && 0 <= tn && tn <= dd {
            let ex: i64 = self.end.x - self.start.x;
            let ey: i64 = self.end.y - self.start.y;
            proof {
                lemma_mul_range(self.start.x as int, dd as int, 524288, 0x20000000000);
                lemma_mul_range(self.start.y as int, dd as int, 524288, 0x20000000000);
                lemma_mul_range(tn as int, ex as int, 0x20000000000, 1048576);
                lemma_mul_range(tn as int, ey as int, 0x20000000000, 1048576);
            }
            let xn: i64 = self.start.x * dd + tn * ex;
            let yn: i64 = self.start.y * dd + tn * ey;
            let p = RatPoint2d { xn, yn, den: dd };
            proof {
                let a = *self;
                let b = *other;
                lemma_cramer(
                    a.start.x as int,
                    a.start.y as int,
                    b.start.x as int,
                    b.start.y as int,
                    (a.end.x - a.start.x) as int,
                    (a.end.y - a.start.y) as int,
                    (b.end.x - b.start.x) as int,
                    (b.end.y - b.start.y) as int,
                    d as int,
                    tn0 as int,
                    p.den as int,
                    tn as int,
                    p.xn as int,
                    p.yn as int,
                );
                assert(on_line_spec(p, a));
                assert(on_line_spec(p, b));
                assert(p == intersect_spec(a, b).unwrap());
            }
            return Some(p);
        }
        None
    }
}

/// Coordinate-wise approximate equality of two grid points.
pub open spec fn spec_pt_approx(a: Point2d, b: Point2d, epsilon: Rat) -> bool {
    &&& crate::numerics::spec_approx_equal(
        (Rat { num: a.x, den: 1 as i64 }),
        (Rat { num: b.x, den: 1 as i64 }),
        epsilon,
    )
    &&& crate::numerics::spec_approx_equal(
        (Rat { num: a.y, den: 1 as i64 }),
        (Rat { num: b.y, den: 1 as i64 }),
        epsilon,
    )
}

} // verus!
