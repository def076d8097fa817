//! An exact 2D computational-geometry kernel: robust primitives, a
//! monotone-chain convex hull, and segment-intersection detection by both a
//! naive pairwise scan and a sweep line.  Coordinates live on an integer
//! grid and intersection points are exact rationals, so every geometric
//! predicate is decided exactly and the algorithms carry full functional
//! contracts.
use vstd::prelude::*;

pub mod assert_helper;
pub mod mixed_increment;
pub mod convex_hull;
pub mod extents2d;
pub mod lexicographic2d;
pub mod line2d;
pub mod line_intersection;
pub mod numerics;
pub mod permutation;
pub mod point2d;
pub mod polygon2d;
pub mod random_geometry;
pub mod rectangle2d;
pub mod rgb;
pub mod scene;
pub mod scene_logger;
pub mod vec_extensions;
