use jump_check::{capsule_outline, isqrt, segment_intersection, unit_normal_of, Point2, RatPoint, Trajectory};

fn pt(x: i64, y: i64) -> Point2 {
    Point2::new(x, y)
}

#[test]
fn crossing_point_is_exact() {
    let r = segment_intersection(pt(0, 0), pt(10, 10), pt(0, 10), pt(10, 0)).unwrap();
    assert_eq!(r, RatPoint { x_num: 1000, y_num: 1000, den: 200 });
    // an off-grid crossing: (0,0)-(7,3) meets (0,3)-(5,-2) at (2.1, 0.9)
    let r = segment_intersection(pt(0, 0), pt(7, 3), pt(0, 3), pt(5, -2)).unwrap();
    assert!(r.den > 0);
    assert_eq!(r.x_num * 10, 21 * r.den);
    assert_eq!(r.y_num * 10, 9 * r.den);
    let x = r.x_num as f64 / r.den as f64;
    assert!((x - 2.1).abs() < 1e-12);
}

#[test]
fn parallel_segments_do_not_intersect() {
    assert_eq!(segment_intersection(pt(0, 0), pt(10, 0), pt(0, 1), pt(10, 1)), None);
    assert_eq!(segment_intersection(pt(0, 0), pt(10, 5), pt(2, 0), pt(12, 5)), None);
    // overlapping collinear segments are reported as not crossing
    assert_eq!(segment_intersection(pt(0, 0), pt(10, 0), pt(5, 0), pt(15, 0)), None);
}

#[test]
fn segments_that_miss_do_not_intersect() {
    assert_eq!(segment_intersection(pt(0, 0), pt(4, 4), pt(0, 10), pt(10, 0)), None);
    assert_eq!(segment_intersection(pt(0, 0), pt(10, 0), pt(5, 1), pt(5, 10)), None);
}

#[test]
fn touching_endpoints_count() {
    let r = segment_intersection(pt(0, 0), pt(10, 0), pt(10, 0), pt(10, 10)).unwrap();
    assert_eq!(r.x_num, 10 * r.den);
    assert_eq!(r.y_num, 0);
}

#[test]
fn integer_square_root() {
    assert_eq!(isqrt(0), 0);
    assert_eq!(isqrt(1), 1);
    assert_eq!(isqrt(99), 9);
    assert_eq!(isqrt(100), 10);
    assert_eq!(isqrt(u128::MAX), u64::MAX as u128);
}

#[test]
fn unit_normals() {
    assert_eq!(unit_normal_of(pt(10, 0)), pt(0, 1024));
    assert_eq!(unit_normal_of(pt(0, -7)), pt(1024, 0));
    assert_eq!(unit_normal_of(pt(3, 4)), pt(-819, 614));
    assert_eq!(unit_normal_of(pt(-3, -4)), pt(819, -614));
    assert_eq!(unit_normal_of(pt(0, 0)), pt(0, 0));
}

#[test]
fn low_energy_arc_samples() {
    let arc = Trajectory::solve(pt(0, 0), pt(100, 0), pt(0, -2));
    assert_eq!(arc.sag, pt(0, -100));
    assert_eq!(arc.sample(0), pt(0, 0));
    assert_eq!(arc.sample(5), pt(5000, 2500));
    assert_eq!(arc.sample(10), pt(10000, 0));
    let flat = Trajectory::solve(pt(0, 0), pt(100, 0), pt(0, 0));
    assert_eq!(flat.sag, pt(0, 0));
    assert_eq!(flat.sample(5), pt(5000, 0));
    // the sag has the displacement's length and points along gravity
    let diag = Trajectory::solve(pt(0, 0), pt(30, 40), pt(-3, -4));
    assert_eq!(diag.sag, pt(-30, -40));
}

#[test]
fn capsule_outline_pieces() {
    let arc = Trajectory::solve(pt(0, 0), pt(100, 0), pt(0, -2));
    let outline = capsule_outline(&arc, 10);
    assert_eq!(outline.len(), 20);
    assert_eq!(outline[0].a, pt(-685000, 761000));
    assert_eq!(outline[0].b, pt(339000, 1682600));
    assert_eq!(outline[1].a, pt(685000, -761000));
    assert_eq!(outline[1].b, pt(1709000, 160600));
    // the last pieces end at the goal, offset by the radius
    assert_eq!(outline[19].b.x + outline[18].b.x, 2 * 1024 * 10000);
}
