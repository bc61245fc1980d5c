use jump_check::{
    check_jump, existence_discriminant, first_hit, flight_time_sq, jump_speed_feasible, jumpability_check,
    GraphNode, JumpCheckPlugin, Level, NodeError, Point2, Polygon, Trajectory,
};

fn pt(x: i64, y: i64) -> Point2 {
    Point2::new(x, y)
}

fn node(x: i64, y: i64, polygon_index: usize, line_indices: Vec<usize>) -> GraphNode {
    GraphNode { position: pt(x, y), polygon_index, line_indices }
}

fn level(polygons: Vec<Vec<Point2>>) -> Level {
    Level { polygons: polygons.into_iter().map(|points| Polygon { points }).collect() }
}

// Gravity 0.5 and launch speed 8 per frame, written with a time unit of two
// frames: gravity 2 and speed 16. The verdict does not depend on the time unit.
fn settings() -> JumpCheckPlugin {
    JumpCheckPlugin { gravity: pt(0, -2), v_max: 16, radius: 10 }
}

#[test]
fn open_ground_jump_is_feasible() {
    let d = existence_discriminant(pt(0, 0), pt(100, 0), pt(0, -2), 16);
    assert_eq!(d, 25536);
    assert!(d >= 0);
    let lv = level(vec![]);
    let r = check_jump(&node(0, 0, 0, vec![]), &node(100, 0, 0, vec![]), &lv, &settings());
    assert!(r.feasible);
    assert_eq!(r.blocking, None);
    // T⁴ = 4 (Δp·Δp) / (a·a) = 10000: ten steps of two frames
    assert_eq!(flight_time_sq(pt(0, 0), pt(100, 0), pt(0, -2)), Some(100));
}

#[test]
fn wall_blocks_jump() {
    let lv = level(vec![vec![pt(50, -50), pt(50, 50)]]);
    let r = check_jump(&node(0, 0, 0, vec![]), &node(100, 0, 0, vec![]), &lv, &settings());
    assert!(!r.feasible);
    let hit = r.blocking.expect("a blocking point");
    assert_eq!(hit.polygon_index, 0);
    assert_eq!(hit.edge_index, 0);
    // the right-hand side of the fifth arc segment, the one that reaches x = 50
    assert_eq!(hit.segment, 9);
    let p = hit.point;
    assert!(p.den > 0);
    assert_eq!(p.x_num, 50 * p.den);
    let y = p.y_num as f64 / p.den as f64;
    assert!((y - 14.9599609375).abs() < 1e-9);
    assert!(!jumpability_check(&node(0, 0, 0, vec![]), &node(100, 0, 0, vec![]), &lv, &settings()));
}

fn exclusion_level() -> Level {
    level(vec![vec![pt(-40, -40), pt(-40, -20), pt(-20, 0), pt(20, 0)], vec![pt(90, 0), pt(110, 0)]])
}

#[test]
fn attached_edges_are_never_collision_sources() {
    let lv = exclusion_level();
    let start = node(0, 0, 0, vec![2]);
    let goal = node(100, 0, 1, vec![0]);
    let r = check_jump(&start, &goal, &lv, &settings());
    assert!(r.feasible);
    assert_eq!(r.blocking, None);
}

#[test]
fn unattached_floor_edge_blocks() {
    let lv = exclusion_level();
    let start = node(0, 0, 5, vec![]);
    let goal = node(100, 0, 1, vec![0]);
    let r = check_jump(&start, &goal, &lv, &settings());
    assert!(!r.feasible);
    let hit = r.blocking.unwrap();
    assert_eq!((hit.polygon_index, hit.edge_index, hit.segment), (0, 2, 1));
    assert_eq!(hit.point.y_num, 0);
}

#[test]
fn goal_attachment_also_excludes() {
    let lv = exclusion_level();
    // the goal sits on polygon 0, edge 2; the start is attached to nothing
    let start = node(100, 0, 1, vec![0]);
    let goal = node(0, 0, 0, vec![2]);
    assert!(jumpability_check(&start, &goal, &lv, &settings()));
}

#[test]
fn self_jump_is_feasible() {
    let lv = level(vec![vec![pt(-10, -10), pt(10, 10)]]);
    let cfg = JumpCheckPlugin { gravity: pt(0, -2), v_max: 0, radius: 10 };
    let r = check_jump(&node(3, 3, 0, vec![]), &node(3, 3, 0, vec![]), &lv, &cfg);
    assert!(r.feasible);
    assert_eq!(r.blocking, None);
    assert_eq!(flight_time_sq(pt(3, 3), pt(3, 3), pt(0, -2)), Some(0));
}

#[test]
fn no_obstacles_is_existence_test() {
    let lv = level(vec![vec![pt(0, 0)]]);
    let cases = [
        ((0, 0), (100, 0), 16u64),
        ((0, 0), (100, 0), 10),
        ((0, 0), (0, 100), 16),
        ((0, 0), (0, 100), 12),
        ((30, 40), (-200, -300), 5),
    ];
    for ((sx, sy), (gx, gy), v) in cases {
        let cfg = JumpCheckPlugin { gravity: pt(0, -2), v_max: v, radius: 10 };
        let empty = level(vec![]);
        let expected = existence_discriminant(pt(sx, sy), pt(gx, gy), pt(0, -2), v) >= 0;
        assert_eq!(jump_speed_feasible(pt(sx, sy), pt(gx, gy), pt(0, -2), v), expected);
        assert_eq!(jumpability_check(&node(sx, sy, 0, vec![]), &node(gx, gy, 0, vec![]), &empty, &cfg), expected);
        // a polygon with a single point has no edges
        assert_eq!(jumpability_check(&node(sx, sy, 0, vec![]), &node(gx, gy, 0, vec![]), &lv, &cfg), expected);
    }
    assert!(!jump_speed_feasible(pt(0, 0), pt(100, 0), pt(0, -2), 10));
}

#[test]
fn discriminant_non_increasing_as_speed_drops() {
    let mut last = i128::MAX;
    for v in [16u64, 12, 10, 8, 6, 4, 2, 0] {
        let d = existence_discriminant(pt(0, 0), pt(100, 0), pt(0, -2), v);
        assert!(d <= last);
        last = d;
    }
    assert_eq!(existence_discriminant(pt(0, 0), pt(100, 0), pt(0, -2), 12), -19264);
    assert_eq!(existence_discriminant(pt(0, 0), pt(100, 0), pt(0, -2), 0), -40000);
}

#[test]
fn straight_up_discriminant_is_not_monotone() {
    // below the speed where Δp·a + v² turns negative the test admits v = 0 again
    assert_eq!(existence_discriminant(pt(0, 0), pt(0, 100), pt(0, -1), 10), -10000);
    assert_eq!(existence_discriminant(pt(0, 0), pt(0, 100), pt(0, -1), 0), 0);
}

#[test]
fn existence_test_is_asymmetric_up_and_down() {
    let up = existence_discriminant(pt(0, 0), pt(50, 50), pt(0, -2), 16);
    let down = existence_discriminant(pt(50, 50), pt(0, 0), pt(0, -2), 16);
    assert_eq!(up, 4336);
    assert_eq!(down, 106736);
    // the difference is 4 (Δp·a) v²
    assert_eq!(up - down, 4 * (-100) * 256);
    let far_up = jump_speed_feasible(pt(0, 0), pt(0, 150), pt(0, -2), 16);
    let far_down = jump_speed_feasible(pt(0, 150), pt(0, 0), pt(0, -2), 16);
    assert!(!far_up);
    assert!(far_down);
}

#[test]
fn level_jump_is_symmetric() {
    let lv = level(vec![vec![pt(50, -50), pt(50, 50)], vec![pt(-30, 60), pt(130, 60)]]);
    let a = node(0, 0, 0, vec![]);
    let b = node(100, 0, 0, vec![]);
    assert_eq!(
        jumpability_check(&a, &b, &lv, &settings()),
        jumpability_check(&b, &a, &lv, &settings())
    );
    let open = level(vec![vec![pt(-30, 60), pt(130, 60)]]);
    assert_eq!(
        jumpability_check(&a, &b, &open, &settings()),
        jumpability_check(&b, &a, &open, &settings())
    );
}

#[test]
fn zero_gravity_moves_in_a_straight_line() {
    let lv = level(vec![vec![pt(50, -50), pt(50, 50)]]);
    let cfg = JumpCheckPlugin { gravity: pt(0, 0), v_max: 1, radius: 10 };
    assert_eq!(flight_time_sq(pt(0, 0), pt(100, 0), pt(0, 0)), None);
    let r = check_jump(&node(0, 0, 0, vec![]), &node(100, 0, 0, vec![]), &lv, &cfg);
    assert!(!r.feasible);
    let hit = r.blocking.unwrap();
    assert_eq!(hit.segment, 8);
    assert_eq!(hit.point.y_num, 10 * hit.point.den);
    assert_eq!(hit.point.x_num, 50 * hit.point.den);
    assert!(jumpability_check(&node(0, 0, 0, vec![]), &node(100, 0, 0, vec![]), &level(vec![]), &cfg));
}

#[test]
fn node_with_missing_anchor_is_refused() {
    let lv = exclusion_level();
    assert_eq!(GraphNode::new(pt(0, 0), 0, vec![3], &lv).err(), Some(NodeError::MissingAnchor));
    assert_eq!(GraphNode::new(pt(0, 0), 2, vec![], &lv).err(), Some(NodeError::MissingAnchor));
    assert_eq!(GraphNode::new(pt(100, 0), 1, vec![1], &lv).err(), Some(NodeError::MissingAnchor));
    let ok = GraphNode::new(pt(0, 0), 0, vec![1, 2], &lv).unwrap();
    assert_eq!(ok.polygon_index, 0);
    assert_eq!(ok.line_indices, vec![1, 2]);
}

#[test]
fn first_hit_follows_polygon_order() {
    // the wall at x = 20 is met first along the arc, but polygon 0 is searched first
    let lv = level(vec![vec![pt(80, -50), pt(80, 50)], vec![pt(20, -50), pt(20, 50)]]);
    let arc = Trajectory::solve(pt(0, 0), pt(100, 0), pt(0, -2));
    let hit = first_hit(&arc, 10, &lv, &node(0, 0, 9, vec![]), &node(100, 0, 9, vec![])).unwrap();
    assert_eq!((hit.polygon_index, hit.edge_index, hit.segment), (0, 0, 14));
    assert_eq!(hit.point.x_num, 80 * hit.point.den);
    let swapped = level(vec![vec![pt(20, -50), pt(20, 50)], vec![pt(80, -50), pt(80, 50)]]);
    let hit = first_hit(&arc, 10, &swapped, &node(0, 0, 9, vec![]), &node(100, 0, 9, vec![])).unwrap();
    assert_eq!((hit.polygon_index, hit.edge_index, hit.segment), (0, 0, 3));
    assert_eq!(hit.point.x_num, 20 * hit.point.den);
}

#[test]
fn attachment_lookup() {
    let n = node(0, 0, 1, vec![4, 2]);
    assert!(n.is_attached_to(1, 2));
    assert!(n.is_attached_to(1, 4));
    assert!(!n.is_attached_to(1, 3));
    assert!(!n.is_attached_to(0, 2));
}
