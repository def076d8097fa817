//! A drawable scene: the points, segments and colors a renderer consumes.
//! The kernel only assembles these collections; rasterizing them is the
//! display layer's business.
use crate::line2d::Line2D;
use crate::point2d::Point2d;
use crate::rgb::RGB;
use crate::vec_extensions::copy_vec;
use vstd::prelude::*;

verus! {

/// Points and segments to draw, with optional per-item colors.
pub struct Scene {
    pub points: Vec<Point2d>,
    pub lines: Vec<Line2D>,
    pub point_colors: Vec<RGB>,
    pub line_colors: Vec<RGB>,
}

/// A value that can offer itself as a scene.
pub trait ISceneProxy {
    /// The points the value contributes.
    spec fn scene_points(&self) -> Seq<Point2d>;

    /// The segments the value contributes.
    spec fn scene_lines(&self) -> Seq<Line2D>;

    /// Renders the value into a fresh scene holding exactly its points and
    /// segments.
    fn get_scene(&self) -> (r: Scene)
        ensures
            r.points@ == self.scene_points(),
            r.lines@ == self.scene_lines(),
            r.point_colors@.len() == 0,
            r.line_colors@.len() == 0,
    ;
}

impl ISceneProxy for Vec<Point2d> {
    open spec fn scene_points(&self) -> Seq<Point2d> {
        self@
    }

    open spec fn scene_lines(&self) -> Seq<Line2D> {
        Seq::empty()
    }

    fn get_scene(&self) -> (r: Scene) {
        let mut scene = Scene::new();
        scene.push_points(copy_vec(self));
        scene
    }
}

impl ISceneProxy for Point2d {
    open spec fn scene_points(&self) -> Seq<Point2d> {
        seq![*self]
    }

    open spec fn scene_lines(&self) -> Seq<Line2D> {
        Seq::empty()
    }

    fn get_scene(&self) -> (r: Scene) {
        let mut scene = Scene::new();
        scene.push_point(*self);
        proof {
            assert(scene.points@ =~= seq![*self]);
        }
        scene
    }
}

impl Scene {
    /// An empty scene.
    pub fn new() -> (r: Scene)
        ensures
            r.points@.len() == 0,
            r.lines@.len() == 0,
            r.point_colors@.len() == 0,
            r.line_colors@.len() == 0,
    {
        Scene { points: Vec::new(), lines: Vec::new(), point_colors: Vec::new(), line_colors: Vec::new() }
    }

    /// A scene holding exactly the given segments.
    pub fn from_lines(lines: Vec<Line2D>) -> (r: Scene)
        ensures
            r.points@.len() == 0,
            r.lines@ == lines@,
            r.point_colors@.len() == 0,
            r.line_colors@.len() == 0,
    {
        Scene { points: Vec::new(), lines, point_colors: Vec::new(), line_colors: Vec::new() }
    }

    /// Removes everything.
    pub fn clear(&mut self)
        ensures
            final(self).points@.len() == 0,
            final(self).lines@.len() == 0,
            final(self).point_colors@.len() == 0,
            final(self).line_colors@.len() == 0,
    {
        self.points.clear();
        self.lines.clear();
        self.point_colors.clear();
        self.line_colors.clear();
    }

    pub fn push_line(&mut self, line: Line2D)
        ensures
            final(self).lines@ == old(self).lines@.push(line),
            final(self).points@ == old(self).points@,
            final(self).point_colors@ == old(self).point_colors@,
            final(self).line_colors@ == old(self).line_colors@,
    {
        self.lines.push(line);
    }

    pub fn push_point(&mut self, point: Point2d)
        ensures
            final(self).points@ == old(self).points@.push(point),
            final(self).lines@ == old(self).lines@,
            final(self).point_colors@ == old(self).point_colors@,
            final(self).line_colors@ == old(self).line_colors@,
    {
        self.points.push(point);
    }

    /// Appends everything the other scene holds.
    pub fn merge(&mut self, other: Scene)
        ensures
            final(self).points@ == old(self).points@ + other.points@,
            final(self).lines@ == old(self).lines@ + other.lines@,
            final(self).point_colors@ == old(self).point_colors@ + other.point_colors@,
            final(self).line_colors@ == old(self).line_colors@ + other.line_colors@,
    {
        let mut other = other;
        self.lines.append(&mut other.lines);
        self.points.append(&mut other.points);
        self.point_colors.append(&mut other.point_colors);
        self.line_colors.append(&mut other.line_colors);
    }

    /// Appends a batch of points.
    pub fn push_points(&mut self, points: Vec<Point2d>)
        ensures
            final(self).points@ == old(self).points@ + points@,
            final(self).lines@ == old(self).lines@,
            final(self).point_colors@ == old(self).point_colors@,
            final(self).line_colors@ == old(self).line_colors@,
    {
        let mut points = points;
        self.points.append(&mut points);
    }

    /// Appends a batch of colored points: each point with its color.
    pub fn push_point_colors(&mut self, points_colors: Vec<(Point2d, RGB)>)
        ensures
            final(self).points@ == old(self).points@ + points_colors@.map_values(
                |pc: (Point2d, RGB)| pc.0,
            ),
            final(self).point_colors@ == old(self).point_colors@ + points_colors@.map_values(
                |pc: (Point2d, RGB)| pc.1,
            ),
            final(self).lines@ == old(self).lines@,
            final(self).line_colors@ == old(self).line_colors@,
    {
        let n: usize = points_colors.len();
        let mut i: usize = 0;
        while i < n
            invariant
                n == points_colors@.len(),
                i <= n,
                self.points@ == old(self).points@ + points_colors@.take(i as int).map_values(
                    (|pc: (Point2d, RGB)| pc.0),
                ),
                self.point_colors@ == old(self).point_colors@ + points_colors@.take(
                    i as int,
                ).map_values((|pc: (Point2d, RGB)| pc.1)),
                self.lines@ == old(self).lines@,
                self.line_colors@ == old(self).line_colors@,
            decreases n - i,
        {
            let pc = points_colors[i];
            self.points.push(pc.0);
            self.point_colors.push(pc.1);
            proof {
                assert(points_colors@.take(i + 1).map_values((|pc: (Point2d, RGB)| pc.0))
                    =~= points_colors@.take(i as int).map_values(
                    (|pc: (Point2d, RGB)| pc.0),
                ).push(pc.0));
                assert(points_colors@.take(i + 1).map_values((|pc: (Point2d, RGB)| pc.1))
                    =~= points_colors@.take(i as int).map_values(
                    (|pc: (Point2d, RGB)| pc.1),
                ).push(pc.1));
                assert(self.points@ =~= old(self).points@ + points_colors@.take(i + 1).map_values(
                    (|pc: (Point2d, RGB)| pc.0),
                ));
                assert(self.point_colors@ =~= old(self).point_colors@ + points_colors@.take(
                    i + 1,
                ).map_values((|pc: (Point2d, RGB)| pc.1)));
            }
            i = i + 1;
        }
        proof {
            assert(points_colors@.take(n as int) =~= points_colors@);
        }
    }

    /// Appends a batch of segments.
    pub fn push_lines(&mut self, lines: Vec<Line2D>)
        ensures
            final(self).lines@ == old(self).lines@ + lines@,
            final(self).points@ == old(self).points@,
            final(self).point_colors@ == old(self).point_colors@,
            final(self).line_colors@ == old(self).line_colors@,
    {
        let mut lines = lines;
        self.lines.append(&mut lines);
    }

    pub fn push_line_color(&mut self, line_color: RGB)
        ensures
            final(self).line_colors@ == old(self).line_colors@.push(line_color),
            final(self).points@ == old(self).points@,
            final(self).lines@ == old(self).lines@,
            final(self).point_colors@ == old(self).point_colors@,
    {
        self.line_colors.push(line_color);
    }

    /// Appends a batch of colored segments: each segment with its color.
    pub fn push_lines_color(&mut self, lines_colors: Vec<(Line2D, RGB)>)
        ensures
            final(self).lines@ == old(self).lines@ + lines_colors@.map_values(
                |lc: (Line2D, RGB)| lc.0,
            ),
            final(self).line_colors@ == old(self).line_colors@ + lines_colors@.map_values(
                |lc: (Line2D, RGB)| lc.1,
            ),
            final(self).points@ == old(self).points@,
            final(self).point_colors@ == old(self).point_colors@,
    {
        let n: usize = lines_colors.len();
        let mut i: usize = 0;
        while i < n
            invariant
                n == lines_colors@.len(),
                i <= n,
                self.lines@ == old(self).lines@ + lines_colors@.take(i as int).map_values(
                    (|lc: (Line2D, RGB)| lc.0),
                ),
                self.line_colors@ == old(self).line_colors@ + lines_colors@.take(
                    i as int,
                ).map_values((|lc: (Line2D, RGB)| lc.1)),
                self.points@ == old(self).points@,
                self.point_colors@ == old(self).point_colors@,
            decreases n - i,
        {
            let lc = lines_colors[i];
            self.lines.push(lc.0);
            self.line_colors.push(lc.1);
            proof {
                assert(lines_colors@.take(i + 1).map_values((|lc: (Line2D, RGB)| lc.0))
                    =~= lines_colors@.take(i as int).map_values(
                    (|lc: (Line2D, RGB)| lc.0),
                ).push(lc.0));
                assert(lines_colors@.take(i + 1).map_values((|lc: (Line2D, RGB)| lc.1))
                    =~= lines_colors@.take(i as int).map_values(
                    (|lc: (Line2D, RGB)| lc.1),
                ).push(lc.1));
                assert(self.lines@ =~= old(self).lines@ + lines_colors@.take(i + 1).map_values(
                    (|lc: (Line2D, RGB)| lc.0),
                ));
                assert(self.line_colors@ =~= old(self).line_colors@ + lines_colors@.take(
                    i + 1,
                ).map_values((|lc: (Line2D, RGB)| lc.1)));
            }
            i = i + 1;
        }
        proof {
            assert(lines_colors@.take(n as int) =~= lines_colors@);
        }
    }
}

} // verus!
