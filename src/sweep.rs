use vstd::prelude::*;

use crate::geometry::{
    crossing_point, dot, lemma_root_le, lemma_scaled_root_neg, lemma_segments_cross_reversed, rat_view,
    scaled_root, segment_intersection, segments_cross, signed_root, vsub, Point2, RatPoint,
};
use crate::trajectory::{lemma_arc_sample_reversed, within_limit, Trajectory, ARC_SEGMENTS, COORD_LIMIT};

verus! {

/// A unit normal is given in 1024ths.
pub const NORMAL_SCALE: i64 = 1024;

/// Outline and obstacle coordinates are in 102400ths of a level unit: the
/// hundredths of the arc samples times the 1024ths of the normals.
pub const FIX_SCALE: i64 = 102400;

/// Number of offset segments in a capsule outline: two per arc segment.
pub const OUTLINE_LEN: usize = 20;

/// The left-hand unit normal of `d`, in 1024ths, each component rounded
/// toward zero; zero for a zero vector.
pub open spec fn unit_normal(d: (int, int)) -> (int, int) {
    let dd = dot(d, d);
    if dd == 0 {
        (0, 0)
    } else {
        (-scaled_root(d.1, 1048576, dd), scaled_root(d.0, 1048576, dd))
    }
}

/// The left-hand unit normal of `d`, in 1024ths.
pub fn unit_normal_of(d: Point2) -> (r: Point2)
    requires
        -0x4000_0000 <= d.x <= 0x4000_0000,
        -0x4000_0000 <= d.y <= 0x4000_0000,
    ensures
        r@ == unit_normal(d@),
        -NORMAL_SCALE <= r.x <= NORMAL_SCALE,
        -NORMAL_SCALE <= r.y <= NORMAL_SCALE,
{
    proof {
        assert(0 <= d.x * d.x <= 0x4000_0000 * 0x4000_0000 && 0 <= d.y * d.y <= 0x4000_0000 * 0x4000_0000)
            by (nonlinear_arith)
            requires
                -0x4000_0000 <= d.x <= 0x4000_0000,
                -0x4000_0000 <= d.y <= 0x4000_0000,
        ;
    }
    let dd: u128 = (d.x as i128 * d.x as i128 + d.y as i128 * d.y as i128) as u128;
    if dd == 0 {
        return Point2 { x: 0, y: 0 };
    }
    let nx = signed_root(d.y, 1048576, dd);
    let ny = signed_root(d.x, 1048576, dd);
    proof {
        lemma_normal_bound(d.y as int, dd as int, nx as int);
        lemma_normal_bound(d.x as int, dd as int, ny as int);
    }
    Point2 { x: -nx, y: ny }
}

proof fn lemma_normal_bound(c: int, dd: int, r: int)
    requires
        dd > 0,
        0 <= c * c <= dd,
        r * r <= c * c * 1048576 / dd,
    ensures
        -NORMAL_SCALE <= r <= NORMAL_SCALE,
{
    assert(c * c * 1048576 / dd <= 1048576) by (nonlinear_arith)
        requires
            dd > 0,
            0 <= c * c <= dd,
    ;
    let m = if r < 0 { -r } else { r };
    assert(m * m == r * r) by (nonlinear_arith)
        requires
            m == r || m == -r,
    ;
    lemma_root_le(m, NORMAL_SCALE as int);
}

/// A straight segment from `a` to `b`.
#[derive(Clone, Copy, Debug, PartialEq, Eq, Structural)]
pub struct Segment {
    pub a: Point2,
    pub b: Point2,
}

/// Piece `j` of the capsule outline of an arc, in 102400ths of a level unit:
/// arc segment `k = j / 2 + 1` (from sample `k − 1` to sample `k`) moved by
/// `radius` along its left-hand normal for even `j`, against it for odd `j`.
pub open spec fn outline_piece(traj: Trajectory, radius: int, j: int) -> ((int, int), (int, int)) {
    let k = j / 2 + 1;
    let a = traj.sample_spec(k - 1);
    let b = traj.sample_spec(k);
    let n = unit_normal(vsub(b, a));
    let o = if j % 2 == 0 {
        (100 * radius * n.0, 100 * radius * n.1)
    } else {
        (-(100 * radius * n.0), -(100 * radius * n.1))
    };
    ((1024 * a.0 + o.0, 1024 * a.1 + o.1), (1024 * b.0 + o.0, 1024 * b.1 + o.1))
}

pub open spec fn within_outline_limit(p: Point2) -> bool {
    -0x100_0000_0000 <= p.x <= 0x100_0000_0000 && -0x100_0000_0000 <= p.y <= 0x100_0000_0000
}

/// The two offset segments that stand for the agent's swept disc along each
/// of the ten arc segments, in arc order, the left one first.
pub fn capsule_outline(traj: &Trajectory, radius: u64) -> (r: Vec<Segment>)
    requires
        traj.wf(),
        radius <= COORD_LIMIT,
    ensures
        r.len() == OUTLINE_LEN,
        forall|j: int|
            0 <= j < OUTLINE_LEN ==> (#[trigger] r@[j]).a@ == outline_piece(*traj, radius as int, j).0
                && r@[j].b@ == outline_piece(*traj, radius as int, j).1
                && within_outline_limit(r@[j].a) && within_outline_limit(r@[j].b),
{
    let mut out: Vec<Segment> = Vec::new();
    let mut prev = traj.sample(0);
    let mut k: usize = 1;
    let ghost rr = radius as int;
    while k <= ARC_SEGMENTS
        invariant
            traj.wf(),
            radius <= COORD_LIMIT,
            rr == radius as int,
            1 <= k <= ARC_SEGMENTS + 1,
            out.len() == 2 * (k - 1),
            prev@ == traj.sample_spec(k - 1),
            -0x2000_0000 <= prev.x <= 0x2000_0000,
            -0x2000_0000 <= prev.y <= 0x2000_0000,
            forall|j: int|
                0 <= j < out.len() ==> (#[trigger] out@[j]).a@ == outline_piece(*traj, rr, j).0
                    && out@[j].b@ == outline_piece(*traj, rr, j).1
                    && within_outline_limit(out@[j].a) && within_outline_limit(out@[j].b),
        decreases ARC_SEGMENTS + 1 - k,
    {
        let cur = traj.sample(k);
        let n = unit_normal_of(Point2 { x: cur.x - prev.x, y: cur.y - prev.y });
        let rs = 100 * radius as i64;
        proof {
            lemma_scale_bound(rs as int, n.x as int);
            lemma_scale_bound(rs as int, n.y as int);
        }
        let ox = rs * n.x;
        let oy = rs * n.y;
        let left = Segment {
            a: Point2 { x: 1024 * prev.x + ox, y: 1024 * prev.y + oy },
            b: Point2 { x: 1024 * cur.x + ox, y: 1024 * cur.y + oy },
        };
        let right = Segment {
            a: Point2 { x: 1024 * prev.x - ox, y: 1024 * prev.y - oy },
            b: Point2 { x: 1024 * cur.x - ox, y: 1024 * cur.y - oy },
        };
        out.push(left);
        out.push(right);
        proof {
            let j0 = 2 * (k - 1);
            assert(j0 / 2 + 1 == k && j0 % 2 == 0);
            assert((j0 + 1) / 2 + 1 == k && (j0 + 1) % 2 == 1);
            assert(100 * rr * n.x == rs * n.x && 100 * rr * n.y == rs * n.y) by (nonlinear_arith)
                requires
                    rs == 100 * rr,
            ;
        }
        prev = cur;
        k = k + 1;
    }
    out
}

proof fn lemma_scale_bound(rs: int, n: int)
    requires
        0 <= rs <= 104857600,
        -NORMAL_SCALE <= n <= NORMAL_SCALE,
    ensures
        -107374182400 <= rs * n <= 107374182400,
{
    assert(-107374182400 <= rs * n <= 107374182400) by (nonlinear_arith)
        requires
            0 <= rs <= 104857600,
            -1024 <= n <= 1024,
    ;
}

/// An obstacle boundary: edge `e` runs from `points[e]` to `points[e + 1]`.
/// A polygon with fewer than two points has no edges.
#[derive(Debug)]
pub struct Polygon {
    pub points: Vec<Point2>,
}

/// The obstacle environment of a level.
#[derive(Debug)]
pub struct Level {
    pub polygons: Vec<Polygon>,
}

impl Level {
    /// Every point of every polygon is within the coordinate limit.
    pub open spec fn wf(&self) -> bool {
        forall|p: int, i: int|
            0 <= p < self.polygons.len() && 0 <= i < self.polygons@[p].points.len() ==> within_limit(
                #[trigger] self.polygons@[p].points@[i],
            )
    }

    pub open spec fn has_edge(&self, p: int, e: int) -> bool {
        0 <= p < self.polygons.len() && 0 <= e && e + 1 < self.polygons@[p].points.len()
    }

    /// Edge `e` of polygon `p`, in 102400ths of a level unit.
    pub open spec fn edge_spec(&self, p: int, e: int) -> ((int, int), (int, int)) {
        let a = self.polygons@[p].points@[e];
        let b = self.polygons@[p].points@[e + 1];
        ((102400 * a.x, 102400 * a.y), (102400 * b.x, 102400 * b.y))
    }
}

/// A navigation-graph node: a position on polygon `polygon_index`, lying on
/// the edges of that polygon listed in `line_indices`.
#[derive(Debug)]
pub struct GraphNode {
    pub position: Point2,
    pub polygon_index: usize,
    pub line_indices: Vec<usize>,
}

/// Why a graph node was refused.
#[derive(Clone, Copy, Debug, PartialEq, Eq, Structural)]
pub enum NodeError {
    /// The polygon index, or one of the edge indices, names no edge of the level.
    MissingAnchor,
}

impl GraphNode {
    /// Polygon `polygon_index` exists and every listed edge is an edge of it.
    pub open spec fn anchored_in(&self, level: Level) -> bool {
        &&& self.polygon_index < level.polygons.len()
        &&& forall|j: int|
            0 <= j < self.line_indices.len() ==> level.has_edge(
                self.polygon_index as int,
                #[trigger] self.line_indices@[j] as int,
            )
    }

    /// A node of `level`, refused when it is not anchored in it.
    pub fn new(position: Point2, polygon_index: usize, line_indices: Vec<usize>, level: &Level) -> (r: Result<
        GraphNode,
        NodeError,
    >)
        ensures
            r.is_ok() == (GraphNode { position, polygon_index, line_indices }).anchored_in(*level),
            r matches Ok(n) ==> n.position == position && n.polygon_index == polygon_index
                && n.line_indices@ == line_indices@,
            r matches Err(err) ==> err == NodeError::MissingAnchor,
    {
        let node = GraphNode { position, polygon_index, line_indices };
        if polygon_index >= level.polygons.len() {
            return Err(NodeError::MissingAnchor);
        }
        let n = level.polygons[polygon_index].points.len();
        let mut j: usize = 0;
        while j < node.line_indices.len()
            invariant
                node == (GraphNode { position, polygon_index, line_indices }),
                polygon_index < level.polygons.len(),
                n == level.polygons@[polygon_index as int].points.len(),
                j <= node.line_indices.len(),
                forall|i: int|
                    0 <= i < j ==> level.has_edge(polygon_index as int, #[trigger] node.line_indices@[i] as int),
            decreases node.line_indices.len() - j,
        {
            let e = node.line_indices[j];
            if e >= n || e + 1 >= n {
                assert(!level.has_edge(polygon_index as int, node.line_indices@[j as int] as int));
                assert(!node.anchored_in(*level));
                return Err(NodeError::MissingAnchor);
            }
            j = j + 1;
        }
        Ok(node)
    }

    /// The node lies on edge `e` of polygon `p`.
    pub open spec fn attached_to(&self, p: int, e: int) -> bool {
        self.polygon_index == p && exists|j: int|
            0 <= j < self.line_indices@.len() && self.line_indices@[j] == e
    }

    /// Whether the node lies on edge `e` of polygon `p`.
    pub fn is_attached_to(&self, p: usize, e: usize) -> (r: bool)
        ensures
            r == self.attached_to(p as int, e as int),
    {
        if self.polygon_index != p {
            return false;
        }
        let mut j: usize = 0;
        while j < self.line_indices.len()
            invariant
                self.polygon_index == p,
                j <= self.line_indices.len(),
                forall|i: int| 0 <= i < j ==> self.line_indices@[i] != e,
            decreases self.line_indices.len() - j,
        {
            if self.line_indices[j] == e {
                assert(0 <= j < self.line_indices@.len() && self.line_indices@[j as int] == e);
                return true;
            }
            j = j + 1;
        }
        false
    }
}

/// Edge `e` of polygon `p` is never tested: the start or the goal node sits
/// on it.
pub open spec fn excluded(start: GraphNode, goal: GraphNode, p: int, e: int) -> bool {
    start.attached_to(p, e) || goal.attached_to(p, e)
}

/// Outline piece `j` of the arc crosses edge `e` of polygon `p`, and that edge
/// is not excluded.
pub open spec fn hit_at(
    traj: Trajectory,
    radius: int,
    level: Level,
    start: GraphNode,
    goal: GraphNode,
    p: int,
    e: int,
    j: int,
) -> bool {
    let piece = outline_piece(traj, radius, j);
    let edge = level.edge_spec(p, e);
    &&& level.has_edge(p, e)
    &&& 0 <= j < OUTLINE_LEN
    &&& !excluded(start, goal, p, e)
    &&& segments_cross(piece.0, piece.1, edge.0, edge.1)
}

/// `(p1, e1, j1)` comes before `(p2, e2, j2)`: polygon order, then edge
/// order, then outline order.
pub open spec fn search_before(p1: int, e1: int, j1: int, p2: int, e2: int, j2: int) -> bool {
    p1 < p2 || (p1 == p2 && e1 < e2) || (p1 == p2 && e1 == e2 && j1 < j2)
}

/// Where outline piece `j` crosses edge `e` of polygon `p`, in level units.
pub open spec fn hit_point(traj: Trajectory, radius: int, level: Level, p: int, e: int, j: int) -> (int, int, int) {
    let piece = outline_piece(traj, radius, j);
    let edge = level.edge_spec(p, e);
    let c = crossing_point(piece.0, piece.1, edge.0, edge.1);
    (c.0, c.1, c.2 * 102400)
}

/// The first collision found: the obstacle edge, the outline piece (arc
/// segment `segment / 2 + 1`, left side for even values) and the crossing
/// point in level units.
#[derive(Clone, Copy, Debug, PartialEq, Eq, Structural)]
pub struct SweepHit {
    pub polygon_index: usize,
    pub edge_index: usize,
    pub segment: usize,
    pub point: RatPoint,
}

/// Sweeps the capsule outline of `traj` against every edge of `level` but
/// those the start and goal nodes sit on, and returns the first crossing in
/// polygon, edge, then outline order.
pub fn first_hit(traj: &Trajectory, radius: u64, level: &Level, start: &GraphNode, goal: &GraphNode) -> (r: Option<
    SweepHit,
>)
    requires
        traj.wf(),
        radius <= COORD_LIMIT,
        level.wf(),
    ensures
        r.is_none() == !exists|p: int, e: int, j: int|
            hit_at(*traj, radius as int, *level, *start, *goal, p, e, j),
        r matches Some(h) ==> {
            &&& hit_at(
                *traj,
                radius as int,
                *level,
                *start,
                *goal,
                h.polygon_index as int,
                h.edge_index as int,
                h.segment as int,
            )
            &&& rat_view(h.point) == hit_point(
                *traj,
                radius as int,
                *level,
                h.polygon_index as int,
                h.edge_index as int,
                h.segment as int,
            )
            &&& forall|p: int, e: int, j: int|
                search_before(p, e, j, h.polygon_index as int, h.edge_index as int, h.segment as int)
                    ==> !hit_at(*traj, radius as int, *level, *start, *goal, p, e, j)
        },
        r matches Some(h) ==> !excluded(*start, *goal, h.polygon_index as int, h.edge_index as int),
{
    let outline = capsule_outline(traj, radius);
    let ghost rr = radius as int;
    let mut p: usize = 0;
    while p < level.polygons.len()
        invariant
            level.wf(),
            rr == radius as int,
            p <= level.polygons.len(),
            outline.len() == OUTLINE_LEN,
            forall|j: int|
                0 <= j < OUTLINE_LEN ==> (#[trigger] outline@[j]).a@ == outline_piece(*traj, rr, j).0
                    && outline@[j].b@ == outline_piece(*traj, rr, j).1
                    && within_outline_limit(outline@[j].a) && within_outline_limit(outline@[j].b),
            forall|p2: int, e2: int, j2: int|
                p2 < p ==> !hit_at(*traj, rr, *level, *start, *goal, p2, e2, j2),
        decreases level.polygons.len() - p,
    {
        let points = &level.polygons[p].points;
        let mut e: usize = 0;
        while e < points.len() && e + 1 < points.len()
            invariant
                level.wf(),
                rr == radius as int,
                p < level.polygons.len(),
                points == level.polygons@[p as int].points,
                e <= points.len(),
                outline.len() == OUTLINE_LEN,
                forall|j: int|
                    0 <= j < OUTLINE_LEN ==> (#[trigger] outline@[j]).a@ == outline_piece(*traj, rr, j).0
                        && outline@[j].b@ == outline_piece(*traj, rr, j).1
                        && within_outline_limit(outline@[j].a) && within_outline_limit(
                        outline@[j].b,
                    ),
                forall|p2: int, e2: int, j2: int|
                    p2 < p ==> !hit_at(*traj, rr, *level, *start, *goal, p2, e2, j2),
                forall|e2: int, j2: int|
                    e2 < e ==> !hit_at(*traj, rr, *level, *start, *goal, p as int, e2, j2),
            decreases points.len() - e,
        {
            if !start.is_attached_to(p, e) && !goal.is_attached_to(p, e) {
                let a = points[e];
                let b = points[e + 1];
                proof {
                    assert(within_limit(level.polygons@[p as int].points@[e as int]));
                    assert(within_limit(level.polygons@[p as int].points@[e + 1]));
                }
                let q1 = Point2 { x: 102400 * a.x, y: 102400 * a.y };
                let q2 = Point2 { x: 102400 * b.x, y: 102400 * b.y };
                let mut j: usize = 0;
                while j < OUTLINE_LEN
                    invariant
                        level.wf(),
                        rr == radius as int,
                        p < level.polygons.len(),
                        level.has_edge(p as int, e as int),
                        !excluded(*start, *goal, p as int, e as int),
                        (q1@, q2@) == level.edge_spec(p as int, e as int),
                        -0x100_0000_0000 <= q1.x <= 0x100_0000_0000,
                        -0x100_0000_0000 <= q1.y <= 0x100_0000_0000,
                        -0x100_0000_0000 <= q2.x <= 0x100_0000_0000,
                        -0x100_0000_0000 <= q2.y <= 0x100_0000_0000,
                        j <= OUTLINE_LEN,
                        outline.len() == OUTLINE_LEN,
                        forall|j3: int|
                            0 <= j3 < OUTLINE_LEN ==> (#[trigger] outline@[j3]).a@ == outline_piece(
                                *traj,
                                rr,
                                j3,
                            ).0 && outline@[j3].b@ == outline_piece(*traj, rr, j3).1
                                && within_outline_limit(outline@[j3].a) && within_outline_limit(
                                outline@[j3].b,
                            ),
                        forall|p2: int, e2: int, j2: int|
                            p2 < p ==> !hit_at(*traj, rr, *level, *start, *goal, p2, e2, j2),
                        forall|e2: int, j2: int|
                            e2 < e ==> !hit_at(*traj, rr, *level, *start, *goal, p as int, e2, j2),
                        forall|j2: int|
                            j2 < j ==> !hit_at(*traj, rr, *level, *start, *goal, p as int, e as int, j2),
                    decreases OUTLINE_LEN - j,
                {
                    let piece = outline[j];
                    assert(piece.a@ == outline_piece(*traj, rr, j as int).0);
                    let found = segment_intersection(piece.a, piece.b, q1, q2);
                    if let Some(point) = found {
                        assert(hit_at(*traj, rr, *level, *start, *goal, p as int, e as int, j as int));
                        let scaled = RatPoint { x_num: point.x_num, y_num: point.y_num, den: point.den * 102400 };
                        return Some(SweepHit { polygon_index: p, edge_index: e, segment: j, point: scaled });
                    }
                    assert(!hit_at(*traj, rr, *level, *start, *goal, p as int, e as int, j as int));
                    j = j + 1;
                }
            }
            e = e + 1;
        }
        p = p + 1;
    }
    None
}

/// The normal of the reversed vector is the reversed normal.
pub proof fn lemma_unit_normal_neg(d: (int, int))
    ensures
        unit_normal((-d.0, -d.1)) == (-unit_normal(d).0, -unit_normal(d).1),
{
    let dd = dot(d, d);
    assert(dot((-d.0, -d.1), (-d.0, -d.1)) == dd) by (nonlinear_arith)
        requires
            dd == d.0 * d.0 + d.1 * d.1,
            dot((-d.0, -d.1), (-d.0, -d.1)) == (-d.0) * (-d.0) + (-d.1) * (-d.1),
    ;
    if dd != 0 {
        assert(dd > 0) by (nonlinear_arith)
            requires
                dd == d.0 * d.0 + d.1 * d.1,
                dd != 0,
        ;
        lemma_scaled_root_neg(d.0, 1048576, dd);
        lemma_scaled_root_neg(d.1, 1048576, dd);
    }
}

/// Flown backwards, an arc keeps its capsule outline: piece `j` of the
/// reversed arc is piece `19 − j` of the arc, run the other way.
pub proof fn lemma_outline_reversed(traj: Trajectory, rev: Trajectory, radius: int, j: int)
    requires
        rev.start == traj.goal,
        rev.goal == traj.start,
        rev.sag == traj.sag,
        0 <= j < OUTLINE_LEN,
    ensures
        outline_piece(rev, radius, j) == (outline_piece(traj, radius, 19 - j).1, outline_piece(
            traj,
            radius,
            19 - j,
        ).0),
{
    let k = j / 2 + 1;
    let kk = (19 - j) / 2 + 1;
    assert(kk == 11 - k);
    assert((19 - j) % 2 == 1 - j % 2);
    lemma_arc_sample_reversed(traj.start@, traj.goal@, traj.sag@, k - 1);
    lemma_arc_sample_reversed(traj.start@, traj.goal@, traj.sag@, k);
    let a = traj.sample_spec(kk - 1);
    let b = traj.sample_spec(kk);
    assert(rev.sample_spec(k - 1) == b);
    assert(rev.sample_spec(k) == a);
    let n = unit_normal(vsub(b, a));
    lemma_unit_normal_neg(vsub(b, a));
    assert(vsub(a, b) == (-vsub(b, a).0, -vsub(b, a).1));
    assert(100 * radius * (-n.0) == -(100 * radius * n.0)) by (nonlinear_arith);
    assert(100 * radius * (-n.1) == -(100 * radius * n.1)) by (nonlinear_arith);
}

/// A collision of the reversed arc, with the nodes swapped, is a collision of
/// the arc, and the other way round.
pub proof fn lemma_hit_reversed(
    traj: Trajectory,
    rev: Trajectory,
    radius: int,
    level: Level,
    start: GraphNode,
    goal: GraphNode,
    p: int,
    e: int,
    j: int,
)
    requires
        rev.start == traj.goal,
        rev.goal == traj.start,
        rev.sag == traj.sag,
        0 <= j < OUTLINE_LEN,
    ensures
        hit_at(rev, radius, level, goal, start, p, e, j) == hit_at(traj, radius, level, start, goal, p, e, 19 - j),
{
    lemma_outline_reversed(traj, rev, radius, j);
    let piece = outline_piece(traj, radius, 19 - j);
    let edge = level.edge_spec(p, e);
    lemma_segments_cross_reversed(piece.0, piece.1, edge.0, edge.1);
}

} // verus!
