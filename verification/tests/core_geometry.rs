use geometry_project::convex_hull::{convex_hull, right_turn};
use geometry_project::line2d::Line2D;
use geometry_project::numerics::Rat;
use geometry_project::point2d::Point2d;
use geometry_project::polygon2d::Polygon2D;
use geometry_project::vec_extensions::VecExtensions;

fn pt(x: i64, y: i64) -> Point2d {
    Point2d::new(x, y)
}

#[test]
fn test_right_turn_1() {
    let pa = pt(0, 0);
    let pb = pt(0, 10);
    let pc = pt(10, 10);

    assert!(right_turn(pa, pb, pc));
}

#[test]
fn test_right_turn_2() {
    let pa = Point2d::origin();
    let pb = pt(0, 10);
    let pc = pt(-10, 10);

    assert!(!right_turn(pa, pb, pc));
}

#[test]
fn test_right_turn_3() {
    let pa = Point2d::origin();
    let pb = pt(-10, 10);
    let pc = pt(10, 20);

    assert!(right_turn(pa, pb, pc));
}

#[test]
fn test_right_turn_line() {
    let pa = pt(75, 75);
    let pb = pt(100, 100);
    let pc = pt(125, 125);

    assert!(!right_turn(pa, pb, pc));
}

#[test]
fn test_basic() {
    let mut points: Vec<Point2d> = vec![pt(0, 0), pt(0, 10), pt(10, 10), pt(10, 0), pt(5, 5)];

    let hull = convex_hull(&mut points);
    assert!(matches!(hull, Some(_)));
}

#[test]
fn test_hull_square_corners() {
    // The interior point is excluded and exactly the four corners come
    // back, in cyclic order.
    let mut points: Vec<Point2d> = vec![pt(0, 0), pt(0, 10), pt(10, 10), pt(10, 0), pt(5, 5)];

    let hull = convex_hull(&mut points).expect("hull of five points");
    let expected = [pt(0, 0), pt(0, 10), pt(10, 10), pt(10, 0)];
    assert_eq!(hull.points.len(), expected.len());
    for i in 0..expected.len() {
        assert_eq!(hull.points[i], expected[i]);
    }
}

#[test]
fn test_hull_too_few_points() {
    let mut points: Vec<Point2d> = vec![pt(0, 0), pt(10, 10)];
    assert!(convex_hull(&mut points).is_none());
}

#[test]
fn test_hull_permutation_invariant() {
    // The hull boundary is the same point sequence for any input order.
    let base = [pt(3, 1), pt(0, 0), pt(10, 0), pt(5, 5), pt(0, 10), pt(10, 10), pt(2, 8)];
    let mut first: Vec<Point2d> = base.to_vec();
    let reference = convex_hull(&mut first).expect("hull");
    let mut rotated: Vec<Point2d> = base.to_vec();
    rotated.reverse();
    rotated.swap(0, 3);
    let other = convex_hull(&mut rotated).expect("hull");
    assert_eq!(reference.points.len(), other.points.len());
    for i in 0..reference.points.len() {
        assert_eq!(reference.points[i], other.points[i]);
    }
}

#[test]
fn test_hull_contains_inputs() {
    // Every input point is on or inside the returned boundary: for the
    // clockwise cyclic boundary, each point sits on the non-positive side
    // of every edge.
    let base = [pt(0, 0), pt(0, 10), pt(10, 10), pt(10, 0), pt(5, 5), pt(2, 3), pt(9, 1)];
    let mut points: Vec<Point2d> = base.to_vec();
    let hull = convex_hull(&mut points).expect("hull");
    let m = hull.points.len();
    for p in base.iter() {
        for i in 0..m {
            let a = hull.points[i];
            let b = hull.points[(i + 1) % m];
            let cross = (b.x - a.x) * (p.y - a.y) - (b.y - a.y) * (p.x - a.x);
            assert!(cross <= 0, "point ({}, {}) outside edge {}", p.x, p.y, i);
        }
    }
}

#[test]
fn line2d_test_approx_equal_1() {
    let a: Line2D = Line2D::new_flat(0, 0, 10, 10);
    let b: Line2D = Line2D::new_flat(0, 0, 10, 10);

    assert!(a.approx_equals(&b, Rat::new(0, 1)));
}

#[test]
fn test_approx_equal_2() {
    let a: Line2D = Line2D::new_flat(0, 0, 10, 10);
    let b: Line2D = Line2D::new_flat(10, 10, 0, 0);

    assert!(a.approx_equals(&b, Rat::new(0, 1)));
}

#[test]
fn test_lines() {
    let polygon: Polygon2D = Polygon2D {
        points: vec![pt(0, 0), pt(0, 10), pt(10, 10), pt(10, 0)],
    };

    let expected: Vec<Line2D> = vec![
        Line2D::new_flat(0, 0, 0, 10),
        Line2D::new_flat(0, 10, 10, 10),
        Line2D::new_flat(10, 10, 10, 0),
        Line2D::new_flat(10, 0, 0, 0),
    ];

    let lines = polygon.lines();

    assert_eq!(expected.len(), lines.len());

    for i in 0..lines.len() {
        assert_eq!(expected[i], lines[i]);
    }
}

#[test]
fn test_from_last() {
    let items: Vec<i32> = vec![0, 1, 2, 3, 4];

    assert_eq!(4, items.from_last(0));
    assert_eq!(3, items.from_last(1));
    assert_eq!(2, items.from_last(2));
    assert_eq!(1, items.from_last(3));
}
