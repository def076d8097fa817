//! Random grid points and segments inside a rectangle, for demo scenes and
//! randomized cross-checking of the two intersection algorithms.
use crate::line2d::Line2D;
use crate::point2d::Point2d;
use crate::rectangle2d::Rectangle2D;
use vstd::prelude::*;

verus! {

/// Relies on rand::random_range over a half-open integer range: the sample
/// lies within the given bounds.  An empty range would abort and is
/// excluded by contract.
#[verifier::external_body]
fn random_in_range(lo: i64, hi: i64) -> (r: i64)
    requires
        lo < hi,
    ensures
        lo <= r < hi,
{
    rand::random_range(lo..hi)
}

/// Random geometry inside a rectangle.
pub struct Random2D {}

impl Random2D {
    /// A random grid point strictly inside the rectangle's upper-left
    /// closed, lower-right open bounds.
    pub fn random_point_int(range: &Rectangle2D) -> (r: Point2d)
        requires
            range.min.x < range.max.x,
            range.min.y < range.max.y,
        ensures
            range.min.x <= r.x < range.max.x,
            range.min.y <= r.y < range.max.y,
    {
        let x = random_in_range(range.min.x, range.max.x);
        let y = random_in_range(range.min.y, range.max.y);
        Point2d { x, y }
    }

    /// A random segment with both endpoints inside the rectangle.
    pub fn random_line_int(range: &Rectangle2D) -> (r: Line2D)
        requires
            range.min.x < range.max.x,
            range.min.y < range.max.y,
        ensures
            range.min.x <= r.start.x < range.max.x,
            range.min.y <= r.start.y < range.max.y,
            range.min.x <= r.end.x < range.max.x,
            range.min.y <= r.end.y < range.max.y,
    {
        let start: Point2d = Random2D::random_point_int(range);
        let end: Point2d = Random2D::random_point_int(range);
        Line2D::new(start, end)
    }

    /// A batch of random segments inside the rectangle.
    pub fn random_lines_int(range: &Rectangle2D, count: usize) -> (r: Vec<Line2D>)
        requires
            range.min.x < range.max.x,
            range.min.y < range.max.y,
        ensures
            r@.len() == count,
            forall|i: int|
                0 <= i < count ==> range.min.x <= (#[trigger] r@[i]).start.x < range.max.x
                    && range.min.y <= r@[i].start.y < range.max.y && range.min.x <= r@[i].end.x
                    < range.max.x && range.min.y <= r@[i].end.y < range.max.y,
    {
        let mut out: Vec<Line2D> = Vec::new();
        let mut i: usize = 0;
        while i < count
            invariant
                range.min.x < range.max.x,
                range.min.y < range.max.y,
                i <= count,
                out@.len() == i,
                forall|k: int|
                    0 <= k < i ==> range.min.x <= (#[trigger] out@[k]).start.x < range.max.x
                        && range.min.y <= out@[k].start.y < range.max.y && range.min.x
                        <= out@[k].end.x < range.max.x && range.min.y <= out@[k].end.y
                        < range.max.y,
            decreases count - i,
        {
            let l = Random2D::random_line_int(range);
            out.push(l);
            i = i + 1;
        }
        out
    }
}

} // verus!
