//! A closed polygon given by the cyclic sequence of its vertices.
use crate::line2d::Line2D;
use crate::point2d::Point2d;
use vstd::prelude::*;

verus! {

/// A polygon: consecutive vertices are joined, and the last closes back to
/// the first.
pub struct Polygon2D {
    pub points: Vec<Point2d>,
}

impl Polygon2D {
    /// The boundary as segments: one per consecutive vertex pair, then the
    /// closing segment.  An empty polygon has no boundary and is excluded
    /// by contract.
    pub fn lines(&self) -> (r: Vec<Line2D>)
        requires
            self.points@.len() >= 1,
        ensures
            r@.len() == self.points@.len(),
            forall|i: int|
                0 <= i < self.points@.len() - 1 ==> #[trigger] r@[i] == (Line2D {
                    start: self.points@[i],
                    end: self.points@[i + 1],
                }),
            r@[self.points@.len() - 1] == (Line2D {
                start: self.points@[self.points@.len() - 1],
                end: self.points@[0],
            }),
    {
        let mut lines: Vec<Line2D> = Vec::new();
        let max_pts: usize = self.points.len();
        let mut i: usize = 1;
        while i < max_pts
            invariant
                max_pts == self.points@.len(),
                1 <= i <= max_pts || (max_pts == 0 && i == 1),
                max_pts >= 1,
                lines@.len() == i - 1,
                forall|k: int|
                    0 <= k < i - 1 ==> #[trigger] lines@[k] == (Line2D {
                        start: self.points@[k],
                        end: self.points@[k + 1],
                    }),
            decreases max_pts - i,
        {
            lines.push(Line2D { start: self.points[i - 1], end: self.points[i] });
            i = i + 1;
        }
        lines.push(
            Line2D { start: self.points[max_pts - 1], end: self.points[0] },
        );
        lines
    }
}

} // verus!
