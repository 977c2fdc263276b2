use splines::BezierCurveBuilder;
use splines::ControlPoint;

#[test]
fn builder_defaults() {
    let mut b = BezierCurveBuilder::new();
    b.add_cv(ControlPoint::new(7, 8, 9, 1));
    let c = b.finalize();
    assert_eq!(c.degree(), 0);
    assert_eq!(c.interval(), (0, 0x1_0000));
}

#[test]
fn degree_is_cv_count_less_one() {
    let mut b = BezierCurveBuilder::new();
    for n in 1..5i64 {
        b.add_cv(ControlPoint::new(n, 2 * n, 0, 1));
        let c = b.finalize();
        assert_eq!(c.degree(), (n - 1) as usize);
        assert_eq!(c.num_cvs(), n as usize);
    }
}

#[test]
fn degree_preserved_by_split() {
    let mut b = BezierCurveBuilder::new();
    b.add_cv(ControlPoint::new(0, 0, 0, 1));
    b.add_cv(ControlPoint::new(100, 200, 0, 1));
    b.add_cv(ControlPoint::new(300, -100, 50, 1));
    let c = b.finalize();
    let (left, right) = c.split(1, 2);
    assert_eq!(left.degree(), 2);
    assert_eq!(right.degree(), 2);
    assert_eq!(left.num_cvs(), 3);
    assert_eq!(right.num_cvs(), 3);
}

#[test]
fn split_midpoint_exact_vertices() {
    let mut b = BezierCurveBuilder::new();
    b.add_cv(ControlPoint::new(0, 0, 0, 1000));
    b.add_cv(ControlPoint::new(1000, 1000, 0, 1000));
    b.add_cv(ControlPoint::new(2000, 0, 0, 1000));
    let c = b.finalize();
    let (left, right) = c.split(1, 2);
    let l = left.evaluate();
    let r = right.evaluate();
    assert_eq!(l[0], ControlPoint::new(0, 0, 0, 1000));
    assert_eq!(l[1], ControlPoint::new(500, 500, 0, 1000));
    assert_eq!(l[2], ControlPoint::new(1000, 500, 0, 1000));
    assert_eq!(r[0], ControlPoint::new(1000, 500, 0, 1000));
    assert_eq!(r[1], ControlPoint::new(1500, 500, 0, 1000));
    assert_eq!(r[2], ControlPoint::new(2000, 0, 0, 1000));
    assert_eq!(left.interval(), (0, 0x8000));
    assert_eq!(right.interval(), (0x8000, 0x1_0000));
}

#[test]
fn split_halves_share_the_split_point() {
    let factors = [(0, 1), (1, 3), (1, 2), (3, 4), (1, 1)];
    for degree in 0..4i64 {
        let mut b = BezierCurveBuilder::new();
        for n in 0..=degree {
            b.add_cv(ControlPoint::new(37 * n - 5, n * n, -n, 1));
        }
        let c = b.finalize();
        for &(num, den) in factors.iter() {
            let (left, right) = c.split(num, den);
            let l = left.evaluate();
            let r = right.evaluate();
            assert_eq!(l[l.len() - 1], r[0]);
            assert_eq!(r[r.len() - 1], c.evaluate()[c.num_cvs() - 1]);
            assert_eq!(l[0], c.evaluate()[0]);
        }
    }
}

#[test]
fn split_partitions_the_interval() {
    let mut b = BezierCurveBuilder::new();
    b.add_cv(ControlPoint::new(0, 0, 0, 1));
    b.add_cv(ControlPoint::new(10, 10, 0, 1));
    b.set_interval(-100, 300);
    let c = b.finalize();
    let (left, right) = c.split(1, 4);
    assert_eq!(left.interval(), (-100, 0));
    assert_eq!(right.interval(), (0, 300));
    assert_eq!(left.interval().1, right.interval().0);
}

#[test]
fn degenerate_split_single_vertex() {
    let mut b = BezierCurveBuilder::new();
    b.add_cv(ControlPoint::new(5, 6, 7, 8));
    let c = b.finalize();
    let (left, right) = c.split(1, 2);
    assert_eq!(left.num_cvs(), 1);
    assert_eq!(right.num_cvs(), 1);
    assert_eq!(left.evaluate()[0], ControlPoint::new(5, 6, 7, 8));
    assert_eq!(right.evaluate()[0], ControlPoint::new(5, 6, 7, 8));
    assert_eq!(left.interval().1, right.interval().0);
}

#[test]
fn evaluate_returns_control_vertices() {
    let pts = [
        ControlPoint::new(1, 2, 3, 4),
        ControlPoint::new(-5, 0, 9, 1),
        ControlPoint::new(8, -8, 8, 0),
    ];
    let mut b = BezierCurveBuilder::new();
    for p in pts.iter() {
        b.add_cv(*p);
    }
    let c = b.finalize();
    let out = c.evaluate();
    assert_eq!(out.len(), 3);
    for i in 0..3 {
        assert_eq!(out[i], pts[i]);
    }
}

#[test]
fn builder_chains_and_is_reusable() {
    let mut b = BezierCurveBuilder::new();
    b.add_cv(ControlPoint::new(0, 0, 0, 1)).add_cv(ControlPoint::new(1, 1, 0, 1));
    let first = b.finalize();
    assert_eq!(first.degree(), 1);
    b.add_cv(ControlPoint::new(2, 0, 0, 1));
    let second = b.finalize();
    assert_eq!(second.degree(), 2);
    // the earlier snapshot is unaffected
    assert_eq!(first.degree(), 1);
}

#[test]
fn set_interval_last_write_wins() {
    let mut b = BezierCurveBuilder::new();
    b.add_cv(ControlPoint::new(0, 0, 0, 1));
    b.set_interval(10, 20).set_interval(300, 50);
    let c = b.finalize();
    assert_eq!(c.interval(), (300, 50));
}
