use mouse_actions::geometry::{normalize_points, points_to_angles, Angle};
use mouse_actions::point::{Point, PointHistory};

fn trace(points: &[(i32, i32)]) -> PointHistory {
    let mut h = PointHistory::new();
    for &(x, y) in points {
        assert!(h.push(Point { x, y }));
    }
    h
}

fn coords(h: &PointHistory) -> Vec<(i32, i32)> {
    h.to_vec().iter().map(|p| (p.x, p.y)).collect()
}

#[test]
fn angles_of_empty_trace_are_empty() {
    assert_eq!(points_to_angles(&trace(&[])), vec![]);
}

#[test]
fn angles_of_single_point_are_empty() {
    assert_eq!(points_to_angles(&trace(&[(3, 4)])), vec![]);
}

#[test]
fn angles_have_one_item_less_than_points() {
    for n in 0..20 {
        let points: Vec<(i32, i32)> = (0..n).map(|i| (i, i * i)).collect();
        let signature = points_to_angles(&trace(&points));
        assert_eq!(signature.len(), if n == 0 { 0 } else { (n - 1) as usize });
    }
}

#[test]
fn angles_are_displacements_between_neighbours() {
    let signature = points_to_angles(&trace(&[(10, 10), (20, 10), (20, 20), (5, 0)]));
    assert_eq!(
        signature,
        vec![
            Angle { dx: 10, dy: 0 },
            Angle { dx: 0, dy: 10 },
            Angle { dx: -15, dy: -20 },
        ]
    );
}

#[test]
fn angles_do_not_overflow_at_the_extremes() {
    let signature = points_to_angles(&trace(&[(i32::MIN, i32::MAX), (i32::MAX, i32::MIN)]));
    assert_eq!(signature, vec![Angle { dx: 4294967295, dy: -4294967295 }]);
}

#[test]
fn angles_measure_as_expected() {
    let signature = points_to_angles(&trace(&[(0, 0), (1, 0), (1, 1), (0, 1), (0, 0)]));
    let measured: Vec<f64> = signature.iter().map(|a| (a.dy as f64).atan2(a.dx as f64)).collect();
    let expected = [
        0.0,
        std::f64::consts::FRAC_PI_2,
        std::f64::consts::PI,
        -std::f64::consts::FRAC_PI_2,
    ];
    assert_eq!(measured.len(), 4);
    for (m, e) in measured.iter().zip(expected.iter()) {
        assert!((m - e).abs() < 1e-12);
    }
}

#[test]
fn normalize_empty_trace_is_empty() {
    assert!(normalize_points(&trace(&[]), false).is_empty());
    assert!(normalize_points(&trace(&[]), true).is_empty());
}

#[test]
fn normalize_single_point_is_empty() {
    assert!(normalize_points(&trace(&[(5, 5)]), false).is_empty());
    assert!(normalize_points(&trace(&[(5, 5)]), true).is_empty());
}

#[test]
fn normalize_zero_width_is_empty() {
    let t = trace(&[(7, 0), (7, 10), (7, 20)]);
    assert!(normalize_points(&t, false).is_empty());
    assert!(normalize_points(&t, true).is_empty());
}

#[test]
fn normalize_zero_height_is_empty() {
    let t = trace(&[(0, 3), (10, 3), (20, 3)]);
    assert!(normalize_points(&t, false).is_empty());
    assert!(normalize_points(&t, true).is_empty());
}

#[test]
fn normalize_min_based_maps_box_to_hundred() {
    let t = trace(&[(10, 100), (20, 300), (30, 200), (15, 150)]);
    let n = normalize_points(&t, false);
    assert_eq!(coords(&n), vec![(0, 0), (50, 100), (100, 50), (25, 25)]);
}

#[test]
fn normalize_min_based_rounds_down() {
    let t = trace(&[(0, 0), (1, 2), (2, 4), (3, 7)]);
    let n = normalize_points(&t, false);
    assert_eq!(coords(&n), vec![(0, 0), (33, 28), (66, 57), (100, 100)]);
}

#[test]
fn normalize_min_based_with_negative_coordinates() {
    let t = trace(&[(-10, -40), (10, 0), (0, -20)]);
    let n = normalize_points(&t, false);
    assert_eq!(coords(&n), vec![(0, 0), (100, 100), (50, 50)]);
}

#[test]
fn normalize_avg_based_puts_centroid_at_origin() {
    let t = trace(&[(0, 0), (10, 20), (20, 40)]);
    let n = normalize_points(&t, true);
    assert_eq!(coords(&n), vec![(-50, -50), (0, 0), (50, 50)]);
}

#[test]
fn normalize_avg_based_rounds_towards_zero() {
    // Mean of x is 4 / 3, rounded to 1; mean of y is 10 / 3, rounded to 3.
    let t = trace(&[(0, 0), (1, 3), (3, 7)]);
    let n = normalize_points(&t, true);
    // x: 100 * (-1) / 3 = -33, 0, 100 * 2 / 3 = 66
    // y: 100 * (-3) / 7 = -42, 0, 100 * 4 / 7 = 57
    assert_eq!(coords(&n), vec![(-33, -42), (0, 0), (66, 57)]);
}

#[test]
fn normalize_avg_based_with_negative_mean() {
    // Sum of x is -7, mean rounded towards zero is -2 (not -3).
    let t = trace(&[(-5, 0), (-2, 1), (0, 2)]);
    let n = normalize_points(&t, true);
    // x offsets from -2: -3, 0, 2 over width 5; y mean 1, offsets -1, 0, 1 over height 2
    assert_eq!(coords(&n), vec![(-60, -50), (0, 0), (40, 50)]);
}

#[test]
fn normalize_handles_the_whole_coordinate_range() {
    let t = trace(&[(i32::MIN, i32::MIN), (i32::MAX, i32::MAX), (0, 0)]);
    let n = normalize_points(&t, false);
    assert_eq!(coords(&n), vec![(0, 0), (100, 100), (50, 50)]);
    let a = normalize_points(&t, true);
    assert_eq!(coords(&a), vec![(-50, -50), (49, 49), (0, 0)]);
}

#[test]
fn normalize_keeps_the_capacity_of_its_input() {
    let mut t = PointHistory::with_capacity(3);
    t.push(Point { x: 0, y: 0 });
    t.push(Point { x: 4, y: 8 });
    t.push(Point { x: 2, y: 2 });
    let n = normalize_points(&t, false);
    assert_eq!(n.capacity(), 3);
    assert_eq!(coords(&n), vec![(0, 0), (100, 100), (50, 25)]);
}

#[test]
fn normalize_is_repeatable() {
    let t = trace(&[(3, 9), (27, 1), (14, 14), (8, 2)]);
    assert_eq!(coords(&normalize_points(&t, true)), coords(&normalize_points(&t, true)));
    assert_eq!(coords(&normalize_points(&t, false)), coords(&normalize_points(&t, false)));
    assert_eq!(points_to_angles(&t), points_to_angles(&t));
}
