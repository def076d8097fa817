use geometry_project::assert_helper::AssertHelper;
use geometry_project::extents2d::Extents2d;
use geometry_project::line2d::Line2D;
use geometry_project::mixed_increment::MixedIncremenet;
use geometry_project::numerics::{
    approx_equal, approx_equal_greater, approx_equal_less, approx_greater, approx_less, Rat,
};
use geometry_project::permutation::PermutationIter;
use geometry_project::point2d::Point2d;
use geometry_project::random_geometry::Random2D;
use geometry_project::rectangle2d::Rectangle2D;
use geometry_project::rgb::RGB;
use geometry_project::scene::{ISceneProxy, Scene};
use geometry_project::scene_logger::SceneLogger;

#[test]
fn test_decrement_1() {
    let mut inc: MixedIncremenet = MixedIncremenet::new_uniform(5, 5);

    assert_eq!(None, inc.decrement());
}

#[test]
fn test_decrement_after_steps() {
    let mut inc: MixedIncremenet = MixedIncremenet::new(vec![3, 3]);
    // Nothing to undo at the start; after nothing changed, still nothing.
    assert_eq!(None, inc.decrement());
    assert_eq!(None, inc.decrement());
}

#[test]
fn test_counter_next_sequence() {
    let mut inc: MixedIncremenet = MixedIncremenet::new_uniform(2, 2);
    assert_eq!(Some(vec![0, 0]), inc.next());
    assert_eq!(Some(vec![0, 1]), inc.next());
    assert_eq!(Some(vec![1, 0]), inc.next());
    assert_eq!(Some(vec![1, 1]), inc.next());
    assert_eq!(None, inc.next());
    assert_eq!(None, inc.next());
}

#[test]
fn test_counter_next_then_decrement() {
    let mut inc: MixedIncremenet = MixedIncremenet::new_uniform(3, 2);
    assert_eq!(Some(vec![0, 0]), inc.next());
    assert_eq!(Some(vec![0, 1]), inc.next());
    // The counter now stands at [0, 2]; undoing one step lowers the
    // rightmost nonzero digit.
    assert_eq!(Some(vec![0, 1]), inc.decrement());
}

#[test]
fn test_permute_1() {
    let mut iter = PermutationIter::new(1);

    let expected: [Option<Vec<i32>>; 2] = [Some(vec![0]), None];

    for i in 0..2 {
        let found = iter.next();
        AssertHelper::option_equal_vec(expected[i].clone(), found);
    }
}

#[test]
fn test_permute_2() {
    let mut iter = PermutationIter::new(2);

    let expected: [Option<Vec<i32>>; 3] = [Some(vec![0, 1]), Some(vec![1, 0]), None];

    for i in 0..3 {
        let found = iter.next();
        AssertHelper::option_equal_vec(expected[i].clone(), found);
    }
}

#[test]
fn test_permute_3() {
    let mut iter = PermutationIter::new(3);

    let expected: [Option<Vec<i32>>; 7] = [
        Some(vec![0, 1, 2]),
        Some(vec![1, 0, 2]),
        Some(vec![2, 0, 1]),
        Some(vec![0, 2, 1]),
        Some(vec![1, 2, 0]),
        Some(vec![2, 1, 0]),
        None,
    ];

    for i in 0..7 {
        let found = iter.next();
        AssertHelper::option_equal_vec(expected[i].clone(), found);
    }
}

#[test]
fn test_new_red() {
    let red: RGB = RGB::red();
    let expected: u32 = 0xff0000;

    assert_eq!(expected, red.0);
}

#[test]
fn test_rgb_channels() {
    assert_eq!(RGB::new(0x12, 0x34, 0x56).0, 0x123456);
    assert_eq!(RGB::black().0, 0);
    assert_eq!(RGB::green().0, 0xff00);
}

#[test]
fn floating_comparisons_test_approx_equal_1() {
    // The relative comparison on exact scalars: one tenth against nearby
    // values under a tolerance of one tenth.
    let eps = Rat::new(1, 10);
    assert!(approx_equal(Rat::new(1, 10), Rat::new(101, 1000), eps));
    assert!(approx_equal(Rat::new(1, 10), Rat::new(11, 100), eps));
    assert!(approx_equal(Rat::new(1, 10), Rat::new(1, 10), eps));
    assert!(!approx_equal(Rat::new(1, 10), Rat::new(5, 10), eps));
}

#[test]
fn test_approx_reflexive_values() {
    for v in [-7i64, 0, 3, 524288] {
        assert!(approx_equal(Rat::from_int(v), Rat::from_int(v), Rat::new(0, 1)));
    }
}

#[test]
fn test_approx_boundary_monotone() {
    // For 4 < 5 the relative gap is 1/9: a tolerance below it keeps the
    // values apart, a tolerance above it merges them.
    let a = Rat::from_int(4);
    let b = Rat::from_int(5);
    assert!(approx_less(a, b, Rat::new(1, 100)));
    assert!(!approx_equal(a, b, Rat::new(1, 100)));
    assert!(approx_equal(a, b, Rat::new(2, 9)));
    assert!(!approx_less(a, b, Rat::new(2, 9)));
    assert!(approx_greater(b, a, Rat::new(1, 100)));
    assert!(approx_equal_less(a, b, Rat::new(1, 100)));
    assert!(approx_equal_greater(b, a, Rat::new(2, 9)));
}

#[test]
fn test_scene_logger_switch() {
    let on = SceneLogger::new("Algorithms", true);
    let off = SceneLogger::new("Algorithms", false);
    assert!(on.is_enabled());
    assert!(!off.is_enabled());
    assert_eq!(on.target(), "Algorithms");
}

#[test]
fn test_option_equal_debug_matching() {
    AssertHelper::option_equal_debug(Some(4), Some(4));
    AssertHelper::option_equal_debug(None, None);
}

#[test]
fn test_rectangle_contains() {
    let rect = Rectangle2D::new_width_height(10, 10);
    let eps = Rat::new(0, 1);
    assert!(rect.contains_open(Point2d::new(5, 5), eps));
    assert!(!rect.contains_open(Point2d::new(0, 5), eps));
    assert!(rect.contains_closed(&Point2d::new(0, 5), eps));
    assert!(rect.contains_closed(&Point2d::new(10, 10), eps));
    assert!(!rect.contains_closed(&Point2d::new(11, 5), eps));
    assert_eq!(rect.width(), 10);
    assert_eq!(rect.height(), 10);
}

#[test]
fn test_random_point_in_bounds() {
    // The randomness comes through a trusted boundary; the points must
    // always land inside the requested rectangle.
    let rect = Rectangle2D {
        min: Point2d::new(-20, -10),
        max: Point2d::new(30, 40),
    };
    for _ in 0..64 {
        let p = Random2D::random_point_int(&rect);
        assert!(rect.min.x <= p.x && p.x < rect.max.x);
        assert!(rect.min.y <= p.y && p.y < rect.max.y);
    }
    let lines = Random2D::random_lines_int(&rect, 8);
    assert_eq!(lines.len(), 8);
    for l in lines.iter() {
        assert!(rect.min.x <= l.start.x && l.start.x < rect.max.x);
        assert!(rect.min.y <= l.end.y && l.end.y < rect.max.y);
    }
}

#[test]
fn test_scene_assembly() {
    let mut scene = Scene::new();
    scene.push_point(Point2d::new(1, 2));
    scene.push_line(Line2D::new_flat(0, 0, 3, 4));
    scene.push_points(vec![Point2d::new(5, 6), Point2d::new(7, 8)]);
    assert_eq!(scene.points.len(), 3);
    assert_eq!(scene.lines.len(), 1);

    let other = Scene::from_lines(vec![Line2D::new_flat(1, 1, 2, 2)]);
    scene.merge(other);
    assert_eq!(scene.lines.len(), 2);
    assert_eq!(scene.lines[1], Line2D::new_flat(1, 1, 2, 2));

    let proxy: Vec<Point2d> = vec![Point2d::new(9, 9)];
    let from_proxy = proxy.get_scene();
    assert_eq!(from_proxy.points.len(), 1);
    assert_eq!(from_proxy.points[0], Point2d::new(9, 9));

    scene.clear();
    assert_eq!(scene.points.len(), 0);
    assert_eq!(scene.lines.len(), 0);
}

#[test]
fn test_scene_colored_batches() {
    let mut scene = Scene::new();
    scene.push_point_colors(vec![
        (Point2d::new(0, 0), RGB::red()),
        (Point2d::new(1, 1), RGB::green()),
    ]);
    assert_eq!(scene.points.len(), 2);
    assert_eq!(scene.point_colors.len(), 2);
    assert_eq!(scene.point_colors[0], RGB::red());

    scene.push_lines_color(vec![(Line2D::new_flat(0, 0, 1, 0), RGB::white())]);
    scene.push_line_color(RGB::black());
    assert_eq!(scene.lines.len(), 1);
    assert_eq!(scene.line_colors.len(), 2);
}

#[test]
fn test_extents_square() {
    let e = Extents2d::new_square(12);
    assert_eq!(e.min, Point2d::new(0, 0));
    assert_eq!(e.max, Point2d::new(12, 12));
}
