use typf::curves::{
    compute_cubic_flatness, compute_quadratic_flatness, flatness_threshold, subdivide_cubic,
    subdivide_quadratic,
};
use typf::fixed::F26Dot6;

fn fi(v: i32) -> F26Dot6 {
    F26Dot6::from_int(v)
}

#[test]
fn curves_test_quadratic_flatness_straight_line() {
    let flatness = compute_quadratic_flatness(fi(0), fi(0), fi(5), fi(5), fi(10), fi(10));
    assert!(flatness.raw() < flatness_threshold().raw());
}

#[test]
fn curves_test_quadratic_subdivision() {
    let mut raw_points = Vec::new();
    subdivide_quadratic(fi(0), fi(0), fi(5), fi(10), fi(10), fi(0), &mut raw_points, 0);
    let points: Vec<(i32, i32)> = raw_points.iter().map(|(x, y)| (x.to_int(), y.to_int())).collect();
    assert!(points.len() > 1, "Curve should be subdivided");
    assert_eq!(points.last().unwrap(), &(10, 0));
}

#[test]
fn curves_test_cubic_flatness_curved() {
    let flatness =
        compute_cubic_flatness(fi(0), fi(0), fi(0), fi(20), fi(10), fi(20), fi(10), fi(0));
    assert!(flatness.raw() > flatness_threshold().raw());
}

#[test]
fn curves_test_cubic_subdivision() {
    let mut raw_points = Vec::new();
    subdivide_cubic(fi(0), fi(0), fi(0), fi(10), fi(10), fi(10), fi(10), fi(0), &mut raw_points, 0);
    let points: Vec<(i32, i32)> = raw_points.iter().map(|(x, y)| (x.to_int(), y.to_int())).collect();
    assert!(points.len() > 1, "Curve should be subdivided");
    assert_eq!(points.last().unwrap(), &(10, 0));
}

#[test]
fn curves_test_max_depth_termination() {
    let mut points = Vec::new();
    subdivide_quadratic(fi(0), fi(0), fi(100), fi(100), fi(10), fi(0), &mut points, 0);
    assert!(points.len() < 10000, "Should terminate subdivision");
}

#[test]
fn quadratic_flatness_exact_value() {
    // Control point (5, 10) against chord midpoint (5, 0): 10 pixels = 640 units.
    let flatness = compute_quadratic_flatness(fi(0), fi(0), fi(5), fi(10), fi(10), fi(0));
    assert_eq!(flatness.raw(), 640);
}

#[test]
fn cubic_flatness_exact_value() {
    // Both control points are 20 pixels off the chord midpoint (5, 0) in y
    // and 5 in x: 25 pixels = 1600 units.
    let flatness =
        compute_cubic_flatness(fi(0), fi(0), fi(0), fi(20), fi(10), fi(20), fi(10), fi(0));
    assert_eq!(flatness.raw(), 1600);
}

#[test]
fn flat_quadratic_emits_only_endpoint() {
    let mut points = Vec::new();
    subdivide_quadratic(fi(0), fi(0), fi(5), fi(5), fi(10), fi(10), &mut points, 0);
    assert_eq!(points, vec![(fi(10), fi(10))]);
}

#[test]
fn subdivision_at_max_depth_emits_endpoint() {
    let mut points = Vec::new();
    subdivide_cubic(fi(0), fi(0), fi(0), fi(50), fi(50), fi(50), fi(50), fi(0), &mut points, 16);
    assert_eq!(points, vec![(fi(50), fi(0))]);
}

#[test]
fn subdivision_appends_to_existing_output() {
    let mut points = vec![(fi(1), fi(2))];
    subdivide_quadratic(fi(0), fi(0), fi(5), fi(10), fi(10), fi(0), &mut points, 0);
    assert_eq!(points[0], (fi(1), fi(2)));
    assert_eq!(*points.last().unwrap(), (fi(10), fi(0)));
}
