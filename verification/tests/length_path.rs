use splines::BezierCurveBuilder;
use splines::ControlPoint;
use splines::PathBuilder;
use splines::SplineError;

#[test]
fn degenerate_curve_has_zero_length_and_one_point() {
    let mut b = BezierCurveBuilder::new();
    b.add_cv(ControlPoint::new(42, -7, 3, 9));
    let c = b.finalize();
    let mut pb = PathBuilder::new();
    assert_eq!(c.length(5, &mut pb), Ok(0));
    let path = c.create_path(5).unwrap();
    assert_eq!(path.len(), 1);
    assert_eq!(path.point(0), ControlPoint::new(42, -7, 3, 9));
}

#[test]
fn straight_segment_length_is_exact() {
    let mut b = BezierCurveBuilder::new();
    b.add_cv(ControlPoint::new(0, 0, 0, 0));
    b.add_cv(ControlPoint::new(300, 400, 0, 0));
    let c = b.finalize();
    let mut pb = PathBuilder::new();
    assert_eq!(c.length(1, &mut pb), Ok(500));
    let path = c.create_path(1).unwrap();
    assert_eq!(path.len(), 2);
    assert_eq!(path.point(0), ControlPoint::new(0, 0, 0, 0));
    assert_eq!(path.point(1), ControlPoint::new(300, 400, 0, 0));
}

#[test]
fn collinear_quadratic_is_flat_immediately() {
    let mut b = BezierCurveBuilder::new();
    b.add_cv(ControlPoint::new(0, 0, 0, 0));
    b.add_cv(ControlPoint::new(300, 400, 0, 0));
    b.add_cv(ControlPoint::new(600, 800, 0, 0));
    let c = b.finalize();
    let mut pb = PathBuilder::new();
    assert_eq!(c.length(1, &mut pb), Ok(1000));
    let path = c.create_path(1).unwrap();
    assert_eq!(path.len(), 2);
    assert_eq!(path.point(1), ControlPoint::new(600, 800, 0, 0));
}

#[test]
fn quadratic_length_between_chord_and_polygon() {
    // one unit of geometry = 100000 fixed-point units
    let s = 100_000;
    let mut b = BezierCurveBuilder::new();
    b.add_cv(ControlPoint::new(0, 0, 0, s));
    b.add_cv(ControlPoint::new(s, s, 0, s));
    b.add_cv(ControlPoint::new(2 * s, 0, 0, s));
    let c = b.finalize();

    let mut sink = PathBuilder::new();
    let coarse = c.length(1000, &mut sink).unwrap();
    let chord = 200_000;
    let polygon = 282_843; // 2 * sqrt(2) * 100000, rounded up
    assert!(coarse > chord, "length {} not above chord {}", coarse, chord);
    assert!(coarse < polygon, "length {} not below polygon {}", coarse, polygon);

    // the true arc length is sqrt(2) + ln(1 + sqrt(2)) units
    let truth = 229_559i64;
    let mut sink2 = PathBuilder::new();
    let fine = c.length(100, &mut sink2).unwrap();
    let coarse_err = (coarse as i64 - truth).abs();
    let fine_err = (fine as i64 - truth).abs();
    assert!(
        fine_err <= coarse_err,
        "error grew: fine {} coarse {}",
        fine_err,
        coarse_err
    );
}

#[test]
fn square_loop_refines_with_accuracy() {
    let s = 100_000;
    let mut b = BezierCurveBuilder::new();
    b.add_cv(ControlPoint::new(0, 0, 0, 0));
    b.add_cv(ControlPoint::new(0, s, 0, 0));
    b.add_cv(ControlPoint::new(s, s, 0, 0));
    b.add_cv(ControlPoint::new(s, 0, 0, 0));
    let c = b.finalize();
    let coarse = c.create_path(1000).unwrap();
    let fine = c.create_path(100).unwrap();
    assert!(
        fine.len() > coarse.len(),
        "fine {} not above coarse {}",
        fine.len(),
        coarse.len()
    );
}

#[test]
fn sample_count_never_drops_as_accuracy_tightens() {
    let s = 100_000;
    let mut b = BezierCurveBuilder::new();
    b.add_cv(ControlPoint::new(0, 0, 0, s));
    b.add_cv(ControlPoint::new(s, s, 0, s));
    b.add_cv(ControlPoint::new(2 * s, 0, 0, s));
    let c = b.finalize();
    let mut last_count: usize = 0;
    for acc in [20_000, 5_000, 1_000, 200, 50].iter() {
        let path = c.create_path(*acc).unwrap();
        assert!(
            path.len() >= last_count,
            "count dropped to {} from {} at accuracy {}",
            path.len(),
            last_count,
            acc
        );
        last_count = path.len();
    }
}

#[test]
fn path_runs_from_first_to_last_control_vertex() {
    let mut b = BezierCurveBuilder::new();
    b.add_cv(ControlPoint::new(-5_000, 0, 250, 1));
    b.add_cv(ControlPoint::new(0, 9_000, 0, 1));
    b.add_cv(ControlPoint::new(4_000, -3_000, 0, 1));
    b.add_cv(ControlPoint::new(12_000, 500, -60, 1));
    b.set_interval(0, 50_000);
    let c = b.finalize();
    let path = c.create_path(10).unwrap();
    assert!(path.len() >= 2);
    assert_eq!(path.point(0), ControlPoint::new(-5_000, 0, 250, 1));
    assert_eq!(path.point(path.len() - 1), ControlPoint::new(12_000, 500, -60, 1));
}

#[test]
fn unattainable_accuracy_is_reported() {
    // this control polygon reproduces itself as its own right half under
    // midpoint subdivision, so no depth of recursion makes it flat at
    // accuracy 1
    let mut b = BezierCurveBuilder::new();
    b.add_cv(ControlPoint::new(0, 0, 0, 0));
    b.add_cv(ControlPoint::new(0, 1, 0, 0));
    b.add_cv(ControlPoint::new(1, 1, 0, 0));
    let c = b.finalize();
    let mut pb = PathBuilder::new();
    assert_eq!(c.length(1, &mut pb), Err(SplineError::AccuracyUnattainable));
    assert!(c.create_path(1).is_err());
}

#[test]
fn length_appends_to_a_seeded_sink() {
    let mut pb = PathBuilder::new();
    pb.add_sorted_point(ControlPoint::new(0, 0, 0, 0), 0);
    let mut b = BezierCurveBuilder::new();
    b.add_cv(ControlPoint::new(0, 0, 0, 0));
    b.add_cv(ControlPoint::new(30, 40, 0, 0));
    let c = b.finalize();
    assert_eq!(c.length(1, &mut pb), Ok(50));
    let path = pb.finalize();
    assert_eq!(path.len(), 2);
    assert_eq!(path.point(1), ControlPoint::new(30, 40, 0, 0));
}

#[test]
fn finalize_collapses_consecutive_duplicates_only() {
    let mut pb = PathBuilder::new();
    let a = ControlPoint::new(1, 1, 0, 0);
    let b = ControlPoint::new(2, 2, 0, 0);
    pb.add_sorted_point(a, 0);
    pb.add_sorted_point(a, 10);
    pb.add_sorted_point(b, 20);
    pb.add_sorted_point(a, 30);
    let path = pb.finalize();
    assert_eq!(path.len(), 3);
    assert_eq!(path.point(0), a);
    assert_eq!(path.point(1), b);
    assert_eq!(path.point(2), a);
}
