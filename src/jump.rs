use vstd::prelude::*;

use crate::geometry::{dot, floor_sqrt, lemma_floor_sqrt_unique, rat_view, vsub, Point2};
use crate::sweep::{
    excluded, first_hit, hit_at, hit_point, lemma_hit_reversed, search_before, GraphNode, Level, SweepHit,
};
use crate::trajectory::{
    discriminant, jump_speed_feasible, lemma_existence_swap, lemma_sag_of_reversed, sag_of, speed_feasible,
    within_limit, Trajectory, COORD_LIMIT,
};

verus! {

/// Settings of the jump check for one kind of agent: the constant
/// acceleration it falls with, the bound on its launch speed and its radius.
#[derive(Clone, Copy, Debug, PartialEq, Eq, Structural)]
pub struct JumpCheckPlugin {
    pub gravity: Point2,
    pub v_max: u64,
    pub radius: u64,
}

impl JumpCheckPlugin {
    pub open spec fn wf(&self) -> bool {
        within_limit(self.gravity) && self.v_max <= COORD_LIMIT && self.radius <= COORD_LIMIT
    }
}

/// The candidate arc that is tested for collisions.
pub open spec fn jump_arc(start: Point2, goal: Point2, gravity: Point2) -> Trajectory {
    let sag = sag_of(vsub(goal@, start@), gravity@);
    Trajectory { start, goal, sag: Point2 { x: sag.0 as i64, y: sag.1 as i64 } }
}

/// Some edge that neither node sits on crosses the capsule outline of the arc.
pub open spec fn arc_blocked(start: GraphNode, goal: GraphNode, level: Level, settings: JumpCheckPlugin) -> bool {
    exists|p: int, e: int, j: int|
        hit_at(
            jump_arc(start.position, goal.position, settings.gravity),
            settings.radius as int,
            level,
            start,
            goal,
            p,
            e,
            j,
        )
}

/// A jump onto the spot it starts from is always possible. Any other jump
/// needs a launch speed within the bound and a clear candidate arc.
pub open spec fn jump_feasible(start: GraphNode, goal: GraphNode, level: Level, settings: JumpCheckPlugin) -> bool {
    start.position == goal.position || (speed_feasible(
        start.position@,
        goal.position@,
        settings.gravity@,
        settings.v_max as int,
    ) && !arc_blocked(start, goal, level, settings))
}

/// The verdict on one jump and, when the arc is blocked, the first collision.
#[derive(Clone, Copy, Debug, PartialEq, Eq, Structural)]
pub struct ReachabilityResult {
    pub feasible: bool,
    pub blocking: Option<SweepHit>,
}

/// Decides whether an agent can jump from node `start` to node `goal`, and
/// reports the first blocking collision if the arc is blocked.
pub fn check_jump(start: &GraphNode, goal: &GraphNode, level: &Level, settings: &JumpCheckPlugin) -> (r:
    ReachabilityResult)
    requires
        level.wf(),
        settings.wf(),
        within_limit(start.position),
        within_limit(goal.position),
    ensures
        r.feasible == jump_feasible(*start, *goal, *level, *settings),
        r.blocking.is_some() == (start.position != goal.position && speed_feasible(
            start.position@,
            goal.position@,
            settings.gravity@,
            settings.v_max as int,
        ) && arc_blocked(*start, *goal, *level, *settings)),
        r.blocking matches Some(h) ==> {
            let arc = jump_arc(start.position, goal.position, settings.gravity);
            let radius = settings.radius as int;
            &&& hit_at(
                arc,
                radius,
                *level,
                *start,
                *goal,
                h.polygon_index as int,
                h.edge_index as int,
                h.segment as int,
            )
            &&& rat_view(h.point) == hit_point(
                arc,
                radius,
                *level,
                h.polygon_index as int,
                h.edge_index as int,
                h.segment as int,
            )
            &&& forall|p: int, e: int, j: int|
                search_before(p, e, j, h.polygon_index as int, h.edge_index as int, h.segment as int)
                    ==> !hit_at(arc, radius, *level, *start, *goal, p, e, j)
            &&& !excluded(*start, *goal, h.polygon_index as int, h.edge_index as int)
        },
{
    let s = start.position;
    let g = goal.position;
    if s.x == g.x && s.y == g.y {
        return ReachabilityResult { feasible: true, blocking: None };
    }
    if !jump_speed_feasible(s, g, settings.gravity, settings.v_max) {
        return ReachabilityResult { feasible: false, blocking: None };
    }
    let arc = Trajectory::solve(s, g, settings.gravity);
    assert(arc == jump_arc(s, g, settings.gravity));
    let hit = first_hit(&arc, settings.radius, level, start, goal);
    ReachabilityResult { feasible: hit.is_none(), blocking: hit }
}

/// Whether an agent can jump from node `start` to node `goal`.
pub fn jumpability_check(start: &GraphNode, goal: &GraphNode, level: &Level, settings: &JumpCheckPlugin) -> (r: bool)
    requires
        level.wf(),
        settings.wf(),
        within_limit(start.position),
        within_limit(goal.position),
    ensures
        r == jump_feasible(*start, *goal, *level, *settings),
{
    check_jump(start, goal, level, settings).feasible
}

/// A jump onto the spot it starts from is always feasible: its arc has no
/// sag and, under gravity, its flight time is zero.
pub proof fn lemma_self_jump_feasible(start: GraphNode, goal: GraphNode, level: Level, settings: JumpCheckPlugin)
    requires
        start.position == goal.position,
    ensures
        jump_feasible(start, goal, level, settings),
        jump_arc(start.position, goal.position, settings.gravity).sag == (Point2 { x: 0, y: 0 }),
        dot(settings.gravity@, settings.gravity@) != 0 ==> floor_sqrt(
            4 * dot(vsub(goal.position@, start.position@), vsub(goal.position@, start.position@))
                / dot(settings.gravity@, settings.gravity@),
        ) == 0,
{
    let a = settings.gravity@;
    let d = vsub(goal.position@, start.position@);
    assert(d == (0int, 0int));
    assert(dot(d, d) == 0);
    lemma_floor_sqrt_unique(0, 0);
    let aa = dot(a, a);
    if aa != 0 {
        assert(a.0 * a.0 * 0 / aa == 0) by (nonlinear_arith)
            requires
                aa != 0,
        ;
        assert(a.1 * a.1 * 0 / aa == 0) by (nonlinear_arith)
            requires
                aa != 0,
        ;
        assert((4 * 0int) / aa == 0) by (nonlinear_arith)
            requires
                aa != 0,
        ;
    }
}

/// Without obstacles the verdict is exactly the analytic existence test.
pub proof fn lemma_no_obstacles(start: GraphNode, goal: GraphNode, level: Level, settings: JumpCheckPlugin)
    requires
        level.polygons.len() == 0,
    ensures
        jump_feasible(start, goal, level, settings) == speed_feasible(
            start.position@,
            goal.position@,
            settings.gravity@,
            settings.v_max as int,
        ),
{
    assert(!arc_blocked(start, goal, level, settings));
    if start.position == goal.position {
        let d = vsub(goal.position@, start.position@);
        let a = settings.gravity@;
        let v = settings.v_max as int;
        assert(d == (0int, 0int));
        let b1 = dot(d, a) + v * v;
        assert(b1 == v * v) by (nonlinear_arith)
            requires
                d == (0int, 0int),
                b1 == dot(d, a) + v * v,
        ;
        assert(dot(a, a) * dot(d, d) == 0) by (nonlinear_arith)
            requires
                d == (0int, 0int),
        ;
        assert(b1 * b1 >= 0) by (nonlinear_arith);
        assert(discriminant(d, a, v) >= 0);
    }
}

/// An edge that the start or goal node sits on never blocks the jump, however
/// close the arc passes to it.
pub proof fn lemma_attached_edge_never_blocks(
    start: GraphNode,
    goal: GraphNode,
    level: Level,
    settings: JumpCheckPlugin,
    p: int,
    e: int,
    j: int,
)
    requires
        start.attached_to(p, e) || goal.attached_to(p, e),
    ensures
        !hit_at(
            jump_arc(start.position, goal.position, settings.gravity),
            settings.radius as int,
            level,
            start,
            goal,
            p,
            e,
            j,
        ),
{
}

/// Swapping start and goal keeps the verdict when the displacement is
/// perpendicular to gravity or the speed bound is zero: the existence test is
/// then unchanged, and the reversed arc has the same outline, so the same
/// edges block it. (Otherwise the existence test itself differs, see
/// `lemma_existence_swap`.)
pub proof fn lemma_swap_keeps_verdict(start: GraphNode, goal: GraphNode, level: Level, settings: JumpCheckPlugin)
    requires
        dot(vsub(goal.position@, start.position@), settings.gravity@) == 0 || settings.v_max == 0,
    ensures
        jump_feasible(start, goal, level, settings) == jump_feasible(goal, start, level, settings),
{
    let s = start.position;
    let g = goal.position;
    let a = settings.gravity;
    let radius = settings.radius as int;
    lemma_existence_swap(s@, g@, a@, settings.v_max as int);
    lemma_sag_of_reversed(vsub(g@, s@), a@);
    assert(vsub(s@, g@) == (-vsub(g@, s@).0, -vsub(g@, s@).1));
    let fwd = jump_arc(s, g, a);
    let rev = jump_arc(g, s, a);
    assert(rev.sag == fwd.sag);
    if arc_blocked(start, goal, level, settings) {
        let (p, e, j) = choose|p: int, e: int, j: int| hit_at(fwd, radius, level, start, goal, p, e, j);
        lemma_hit_reversed(fwd, rev, radius, level, start, goal, p, e, 19 - j);
        assert(hit_at(rev, radius, level, goal, start, p, e, 19 - j));
    }
    if arc_blocked(goal, start, level, settings) {
        let (p, e, j) = choose|p: int, e: int, j: int| hit_at(rev, radius, level, goal, start, p, e, j);
        lemma_hit_reversed(fwd, rev, radius, level, start, goal, p, e, j);
        assert(hit_at(fwd, radius, level, start, goal, p, e, 19 - j));
    }
}

} // verus!
