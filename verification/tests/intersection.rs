use geometry_project::line2d::Line2D;
use geometry_project::line_intersection::{
    line_sweep_intersection, naive_line_intersection, naive_line_intersection_with_lines,
};
use geometry_project::point2d::{Point2d, RatPoint2d};

fn rp(x: i64, y: i64) -> RatPoint2d {
    RatPoint2d::from_point(Point2d::new(x, y))
}

/// Exact value equality of rational points, as the kernel defines it.
fn same_point(a: &RatPoint2d, b: &RatPoint2d) -> bool {
    a.eq_value(b)
}

/// The two collections hold the same set of points, by exact value.
fn same_point_set(a: &[RatPoint2d], b: &[RatPoint2d]) -> bool {
    a.iter().all(|p| b.iter().any(|q| same_point(p, q)))
        && b.iter().all(|p| a.iter().any(|q| same_point(p, q)))
}

#[test]
fn test_intersect_1() {
    let a: Line2D = Line2D::new_flat(0, 0, 10, 10);
    let b: Line2D = Line2D::new_flat(5, 5, 5, -5);

    let expected = rp(5, 5);

    let intersect = a.intersect(&b);

    assert!(intersect.map_or(false, |p| same_point(&p, &expected)));
}

#[test]
fn test_intersect_2() {
    let a: Line2D = Line2D::new_flat(0, 0, 0, 10);
    let b: Line2D = Line2D::new_flat(0, 10, 10, 10);

    let expected = rp(0, 10);
    let intersection = a.intersect(&b);

    assert!(intersection.map_or(false, |p| same_point(&p, &expected)));
}

#[test]
fn test_intersect_parallel_none() {
    let a: Line2D = Line2D::new_flat(0, 0, 10, 0);
    let b: Line2D = Line2D::new_flat(0, 5, 10, 5);

    assert!(a.intersect(&b).is_none());
}

#[test]
fn test_intersect_degenerate_none() {
    let a: Line2D = Line2D::new_flat(3, 3, 3, 3);
    let b: Line2D = Line2D::new_flat(0, 0, 10, 10);

    assert!(a.intersect(&b).is_none());
}

#[test]
fn test_intersect_fractional_point() {
    // (0,0)-(10,10) and (0,4)-(10,4) cross at the exact point (4, 4).
    let a: Line2D = Line2D::new_flat(0, 0, 10, 10);
    let b: Line2D = Line2D::new_flat(0, 4, 10, 4);

    let p = a.intersect(&b).expect("crossing pair");
    assert!(same_point(&p, &rp(4, 4)));
}

#[test]
fn test_naive_reports_each_pair() {
    let lines = vec![
        Line2D::new_flat(0, 0, 10, 10),
        Line2D::new_flat(10, 0, 0, 10),
        Line2D::new_flat(0, 4, 10, 4),
    ];
    let points = naive_line_intersection(&lines);
    // Pairs in scan order: (a, b) at (5,5); (a, c) at (4,4); (b, c) at (6,4).
    assert_eq!(points.len(), 3);
    assert!(same_point(&points[0], &rp(5, 5)));
    assert!(same_point(&points[1], &rp(4, 4)));
    assert!(same_point(&points[2], &rp(6, 4)));
}

#[test]
fn test_naive_with_lines_annotates_pairs() {
    let a = Line2D::new_flat(0, 0, 10, 10);
    let b = Line2D::new_flat(5, 5, 5, -5);
    let lines = vec![a, b];
    let trios = naive_line_intersection_with_lines(&lines);
    assert_eq!(trios.len(), 1);
    assert!(same_point(&trios[0].0, &rp(5, 5)));
    assert_eq!(trios[0].1, a);
    assert_eq!(trios[0].2, b);
}

#[test]
fn test_sweep_crossing_pair() {
    let lines = vec![
        Line2D::new_flat(0, 0, 10, 10),
        Line2D::new_flat(5, 5, 5, -5),
    ];
    let pts = line_sweep_intersection(&lines).expect("all in range");
    assert_eq!(pts.len(), 1);
    assert!(same_point(&pts[0], &rp(5, 5)));
}

#[test]
fn test_sweep_shared_endpoint() {
    let lines = vec![
        Line2D::new_flat(0, 0, 0, 10),
        Line2D::new_flat(0, 10, 10, 10),
    ];
    let pts = line_sweep_intersection(&lines).expect("all in range");
    assert_eq!(pts.len(), 1);
    assert!(same_point(&pts[0], &rp(0, 10)));
}

#[test]
fn test_sweep_matches_naive() {
    // Cross-check of the two algorithms on crossing configurations with no
    // three segments concurrent at a point.
    let samples: Vec<Vec<Line2D>> = vec![
        vec![
            Line2D::new_flat(0, 0, 10, 10),
            Line2D::new_flat(5, 5, 5, -5),
        ],
        vec![
            Line2D::new_flat(0, 0, 10, 10),
            Line2D::new_flat(10, 0, 0, 10),
        ],
        vec![
            Line2D::new_flat(0, 0, 0, 10),
            Line2D::new_flat(0, 10, 10, 10),
        ],
        vec![
            Line2D::new_flat(-8, -3, 9, 4),
            Line2D::new_flat(-2, -9, 1, 8),
        ],
    ];
    for lines in samples.iter() {
        let naive = naive_line_intersection(lines);
        let sweep = line_sweep_intersection(lines).expect("all in range");
        assert!(
            same_point_set(&naive, &sweep),
            "naive found {} points, sweep found {}",
            naive.len(),
            sweep.len()
        );
    }
}

#[test]
fn test_parallel_segments_no_points() {
    let lines = vec![
        Line2D::new_flat(0, 0, 10, 0),
        Line2D::new_flat(0, 5, 10, 5),
        Line2D::new_flat(0, 9, 10, 9),
    ];
    let naive = naive_line_intersection(&lines);
    assert!(naive.is_empty());
    let sweep = line_sweep_intersection(&lines).expect("all in range");
    assert!(sweep.is_empty());
}

#[test]
fn test_sweep_rejects_out_of_range() {
    // The unsupported-coordinate segment plays the role the non-finite
    // segment plays for floating inputs: the sweep refuses the whole
    // input, while the naive scan stays defined and reports the crossings
    // of the supported pairs only.
    let lines = vec![
        Line2D::new_flat(0, 0, 10, 10),
        Line2D::new_flat(600000, 0, 0, 600000),
    ];
    assert!(line_sweep_intersection(&lines).is_none());
    let naive = naive_line_intersection(&lines);
    assert!(naive.is_empty());
}

#[test]
fn test_sweep_empty_input() {
    let lines: Vec<Line2D> = vec![];
    let pts = line_sweep_intersection(&lines).expect("nothing to reject");
    assert!(pts.is_empty());
}

#[test]
fn test_sweep_shared_upper_endpoint() {
    // Two segments leaving one point: the shared upper endpoint must be
    // reported, as the detector's contract promises.
    let lines = vec![
        Line2D::new_flat(0, 0, 10, 10),
        Line2D::new_flat(0, 0, 10, 0),
    ];
    let pts = line_sweep_intersection(&lines).expect("all in range");
    assert_eq!(pts.len(), 1);
    assert!(same_point(&pts[0], &rp(0, 0)));
    let naive = naive_line_intersection(&lines);
    assert!(same_point_set(&naive, &pts));
}
