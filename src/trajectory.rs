use vstd::prelude::*;

use crate::geometry::{dot, floor_sqrt, isqrt, lemma_root_le, scaled_root, signed_root, vsub, Point2};

verus! {

/// Largest magnitude of a level coordinate, of a gravity component, of the
/// launch speed bound and of the agent radius.
pub const COORD_LIMIT: i64 = 1048576;

pub open spec fn within_limit(p: Point2) -> bool {
    -COORD_LIMIT <= p.x <= COORD_LIMIT && -COORD_LIMIT <= p.y <= COORD_LIMIT
}

/// The existence discriminant `(Δp·a + v²)² − (a·a)(Δp·Δp)`.
pub open spec fn discriminant(delta: (int, int), accel: (int, int), v_max: int) -> int {
    let b1 = dot(delta, accel) + v_max * v_max;
    b1 * b1 - dot(accel, accel) * dot(delta, delta)
}

/// Some launch velocity of speed at most `v_max` carries the agent from
/// `start` to `goal` under `accel`, obstacles aside.
pub open spec fn speed_feasible(start: (int, int), goal: (int, int), accel: (int, int), v_max: int) -> bool {
    discriminant(vsub(goal, start), accel, v_max) >= 0
}

proof fn lemma_abs_mul_le(a: int, b: int, ba: int, bb: int)
    requires
        -ba <= a <= ba,
        -bb <= b <= bb,
    ensures
        -(ba * bb) <= a * b <= ba * bb,
{
    assert(-(ba * bb) <= a * b <= ba * bb) by (nonlinear_arith)
        requires
            -ba <= a <= ba,
            -bb <= b <= bb,
    ;
}

/// `x² + y²` of a vector with components of magnitude at most `2^21`.
pub fn squared_norm(x: i128, y: i128) -> (r: u128)
    requires
        -2097152 <= x <= 2097152,
        -2097152 <= y <= 2097152,
    ensures
        r == x * x + y * y,
        r <= 8796093022208,
        x * x <= r,
        y * y <= r,
{
    assert(0 <= x * x <= 2097152 * 2097152 && 0 <= y * y <= 2097152 * 2097152) by (nonlinear_arith)
        requires
            -2097152 <= x <= 2097152,
            -2097152 <= y <= 2097152,
    ;
    (x * x + y * y) as u128
}

/// The existence discriminant for a jump from `start` to `goal`.
pub fn existence_discriminant(start: Point2, goal: Point2, gravity: Point2, v_max: u64) -> (r: i128)
    requires
        within_limit(start),
        within_limit(goal),
        within_limit(gravity),
        v_max <= COORD_LIMIT,
    ensures
        r == discriminant(vsub(goal@, start@), gravity@, v_max as int),
{
    let dx = goal.x as i128 - start.x as i128;
    let dy = goal.y as i128 - start.y as i128;
    let ax = gravity.x as i128;
    let ay = gravity.y as i128;
    let v = v_max as i128;
    proof {
        lemma_abs_mul_le(dx as int, ax as int, 2097152, 1048576);
        lemma_abs_mul_le(dy as int, ay as int, 2097152, 1048576);
        lemma_abs_mul_le(v as int, v as int, 1048576, 1048576);
        lemma_abs_mul_le(dx as int, dx as int, 2097152, 2097152);
        lemma_abs_mul_le(dy as int, dy as int, 2097152, 2097152);
        lemma_abs_mul_le(ax as int, ax as int, 1048576, 1048576);
        lemma_abs_mul_le(ay as int, ay as int, 1048576, 1048576);
    }
    let b1 = dx * ax + dy * ay + v * v;
    let aa = ax * ax + ay * ay;
    let dd = dx * dx + dy * dy;
    proof {
        lemma_abs_mul_le(b1 as int, b1 as int, 13194139533312, 13194139533312);
        lemma_abs_mul_le(aa as int, dd as int, 2199023255552, 8796093022208);
    }
    b1 * b1 - aa * dd
}

/// The analytic existence test: the discriminant is not negative.
pub fn jump_speed_feasible(start: Point2, goal: Point2, gravity: Point2, v_max: u64) -> (r: bool)
    requires
        within_limit(start),
        within_limit(goal),
        within_limit(gravity),
        v_max <= COORD_LIMIT,
    ensures
        r == speed_feasible(start@, goal@, gravity@, v_max as int),
{
    existence_discriminant(start, goal, gravity, v_max) >= 0
}

/// Swapping start and goal changes the discriminant by exactly
/// `4 (Δp·a) v_max²`: the existence test is not symmetric in general (a jump up
/// is harder than the same jump down), and it is symmetric whenever the
/// displacement is perpendicular to gravity or the speed bound is zero.
pub proof fn lemma_existence_swap(start: (int, int), goal: (int, int), accel: (int, int), v_max: int)
    ensures
        discriminant(vsub(goal, start), accel, v_max) - discriminant(vsub(start, goal), accel, v_max)
            == 4 * dot(vsub(goal, start), accel) * (v_max * v_max),
        dot(vsub(goal, start), accel) == 0 || v_max == 0 ==> speed_feasible(start, goal, accel, v_max)
            == speed_feasible(goal, start, accel, v_max),
{
    let (dx, dy) = (goal.0 - start.0, goal.1 - start.1);
    let x = dot(vsub(goal, start), accel);
    let w = v_max * v_max;
    assert(dot(vsub(start, goal), accel) == -x) by (nonlinear_arith)
        requires
            x == dx * accel.0 + dy * accel.1,
            dot(vsub(start, goal), accel) == (-dx) * accel.0 + (-dy) * accel.1,
    ;
    assert(dot(vsub(start, goal), vsub(start, goal)) == dot(vsub(goal, start), vsub(goal, start)))
        by (nonlinear_arith)
        requires
            dot(vsub(goal, start), vsub(goal, start)) == dx * dx + dy * dy,
            dot(vsub(start, goal), vsub(start, goal)) == (-dx) * (-dx) + (-dy) * (-dy),
    ;
    assert((x + w) * (x + w) - (-x + w) * (-x + w) == 4 * x * w) by (nonlinear_arith);
    if v_max == 0 {
        assert(w == 0) by (nonlinear_arith)
            requires
                v_max == 0,
                w == v_max * v_max,
        ;
    }
    if x == 0 || w == 0 {
        assert(4 * x * w == 0) by (nonlinear_arith)
            requires
                x == 0 || w == 0,
        ;
    }
}

/// Lowering the speed bound never makes the existence discriminant larger,
/// as long as `Δp·a + v²` stays non-negative at the lower bound. Below that
/// point the discriminant is a square that grows again as `v` shrinks to 0
/// (for a jump straight up it returns to 0), so the law is stated for speeds
/// at or above it.
pub proof fn lemma_existence_monotone_in_speed(delta: (int, int), accel: (int, int), v_low: int, v_high: int)
    requires
        0 <= v_low <= v_high,
        dot(delta, accel) + v_low * v_low >= 0,
    ensures
        discriminant(delta, accel, v_low) <= discriminant(delta, accel, v_high),
        discriminant(delta, accel, v_low) >= 0 ==> discriminant(delta, accel, v_high) >= 0,
{
    let x = dot(delta, accel);
    assert(v_low * v_low <= v_high * v_high) by (nonlinear_arith)
        requires
            0 <= v_low <= v_high,
    ;
    let b_low = x + v_low * v_low;
    let b_high = x + v_high * v_high;
    assert(b_low * b_low <= b_high * b_high) by (nonlinear_arith)
        requires
            0 <= b_low <= b_high,
    ;
}

/// Number of straight pieces the arc is cut into for the collision sweep.
pub const ARC_SEGMENTS: usize = 10;

/// Arc samples are in hundredths of a level unit.
pub const SAMPLE_SCALE: i64 = 100;

/// The sag of the low-energy arc, `½ a T²` where the flight time `T` has
/// `T⁴ = 4 (Δp·Δp) / (a·a)`: a vector along gravity whose length is `|Δp|`,
/// each component rounded toward zero. Without gravity there is no sag and
/// the arc is the straight segment.
pub open spec fn sag_of(delta: (int, int), accel: (int, int)) -> (int, int) {
    let aa = dot(accel, accel);
    let dd = dot(delta, delta);
    if aa == 0 {
        (0, 0)
    } else {
        (scaled_root(accel.0, dd, aa), scaled_root(accel.1, dd, aa))
    }
}

/// The arc position at time `i T / 10`, in hundredths of a level unit:
/// `start + s Δp − s (1 − s) sag` with `s = i / 10`.
pub open spec fn arc_sample(start: (int, int), goal: (int, int), sag: (int, int), i: int) -> (int, int) {
    (
        100 * start.0 + 10 * i * (goal.0 - start.0) - i * (10 - i) * sag.0,
        100 * start.1 + 10 * i * (goal.1 - start.1) - i * (10 - i) * sag.1,
    )
}

/// The candidate arc of one jump: `position(t) = start + v₀ t + ½ a t²` for
/// `t` in `[0, T]`, written through its endpoints and its sag
/// `½ a T² = Δp − v₀ T`.
#[derive(Clone, Copy, Debug, PartialEq, Eq, Structural)]
pub struct Trajectory {
    pub start: Point2,
    pub goal: Point2,
    pub sag: Point2,
}

/// Largest magnitude of a sag component.
pub const SAG_LIMIT: i64 = 4194304;

impl Trajectory {
    pub open spec fn wf(&self) -> bool {
        &&& within_limit(self.start)
        &&& within_limit(self.goal)
        &&& -SAG_LIMIT <= self.sag.x <= SAG_LIMIT
        &&& -SAG_LIMIT <= self.sag.y <= SAG_LIMIT
    }

    pub open spec fn sample_spec(&self, i: int) -> (int, int) {
        arc_sample(self.start@, self.goal@, self.sag@, i)
    }

    /// The low-energy arc from `start` to `goal` under `gravity`.
    pub fn solve(start: Point2, goal: Point2, gravity: Point2) -> (r: Trajectory)
        requires
            within_limit(start),
            within_limit(goal),
            within_limit(gravity),
        ensures
            r.wf(),
            r.start == start,
            r.goal == goal,
            r.sag@ == sag_of(vsub(goal@, start@), gravity@),
    {
        let dx = goal.x as i128 - start.x as i128;
        let dy = goal.y as i128 - start.y as i128;
        let ax = gravity.x as i128;
        let ay = gravity.y as i128;
        let dd = squared_norm(dx, dy);
        let aa = squared_norm(ax, ay);
        if aa == 0 {
            return Trajectory { start, goal, sag: Point2 { x: 0, y: 0 } };
        }
        let sx = signed_root(gravity.x, dd, aa);
        let sy = signed_root(gravity.y, dd, aa);
        proof {
            lemma_sag_bound(ax as int, dd as int, aa as int, sx as int);
            lemma_sag_bound(ay as int, dd as int, aa as int, sy as int);
        }
        Trajectory { start, goal, sag: Point2 { x: sx, y: sy } }
    }

    /// The arc position at time `i T / 10`, in hundredths of a level unit.
    pub fn sample(&self, i: usize) -> (r: Point2)
        requires
            self.wf(),
            i <= ARC_SEGMENTS,
        ensures
            r@ == self.sample_spec(i as int),
            -0x2000_0000 <= r.x <= 0x2000_0000,
            -0x2000_0000 <= r.y <= 0x2000_0000,
    {
        let k = i as i64;
        assert(0 <= k * (10 - k) <= 25) by (nonlinear_arith)
            requires
                0 <= k <= 10,
        ;
        let w = k * (10 - k);
        proof {
            lemma_abs_mul_le(k as int, (self.goal.x - self.start.x) as int, 10, 2097152);
            lemma_abs_mul_le(k as int, (self.goal.y - self.start.y) as int, 10, 2097152);
            lemma_abs_mul_le(w as int, self.sag.x as int, 25, 4194304);
            lemma_abs_mul_le(w as int, self.sag.y as int, 25, 4194304);
        }
        let x = 100 * self.start.x + 10 * (k * (self.goal.x - self.start.x)) - w * self.sag.x;
        let y = 100 * self.start.y + 10 * (k * (self.goal.y - self.start.y)) - w * self.sag.y;
        proof {
            assert(10 * (k * (self.goal.x - self.start.x)) == 10 * k * (self.goal.x - self.start.x))
                by (nonlinear_arith);
            assert(10 * (k * (self.goal.y - self.start.y)) == 10 * k * (self.goal.y - self.start.y))
                by (nonlinear_arith);
        }
        Point2 { x, y }
    }
}

proof fn lemma_sag_bound(c: int, dd: int, aa: int, r: int)
    requires
        aa > 0,
        0 <= dd <= 8796093022208,
        c * c <= aa,
        r * r <= c * c * dd / aa,
    ensures
        -SAG_LIMIT <= r <= SAG_LIMIT,
{
    assert(0 <= c * c) by (nonlinear_arith);
    assert(c * c * dd / aa <= dd) by (nonlinear_arith)
        requires
            aa > 0,
            dd >= 0,
            0 <= c * c <= aa,
    ;
    let m = if r < 0 { -r } else { r };
    assert(m * m == r * r) by (nonlinear_arith)
        requires
            m == r || m == -r,
    ;
    lemma_root_le(m, SAG_LIMIT as int);
}

/// The sag depends on the displacement only through its length.
pub proof fn lemma_sag_of_reversed(delta: (int, int), accel: (int, int))
    ensures
        sag_of((-delta.0, -delta.1), accel) == sag_of(delta, accel),
{
    assert(dot((-delta.0, -delta.1), (-delta.0, -delta.1)) == dot(delta, delta)) by (nonlinear_arith);
}

/// Flown from the goal back to the start with the same sag, the arc passes
/// through the same samples in reverse order.
pub proof fn lemma_arc_sample_reversed(start: (int, int), goal: (int, int), sag: (int, int), i: int)
    ensures
        arc_sample(goal, start, sag, i) == arc_sample(start, goal, sag, 10 - i),
{
    assert(100 * goal.0 + 10 * i * (start.0 - goal.0) - i * (10 - i) * sag.0 == 100 * start.0 + 10 * (10 - i)
        * (goal.0 - start.0) - (10 - i) * (10 - (10 - i)) * sag.0) by (nonlinear_arith);
    assert(100 * goal.1 + 10 * i * (start.1 - goal.1) - i * (10 - i) * sag.1 == 100 * start.1 + 10 * (10 - i)
        * (goal.1 - start.1) - (10 - i) * (10 - (10 - i)) * sag.1) by (nonlinear_arith);
}

/// The flight time of the low-energy arc squared, `T² = sqrt(4 (Δp·Δp) / (a·a))`,
/// rounded down; `None` without gravity, where no flight time is singled out.
pub fn flight_time_sq(start: Point2, goal: Point2, gravity: Point2) -> (r: Option<u64>)
    requires
        within_limit(start),
        within_limit(goal),
        within_limit(gravity),
    ensures
        r.is_none() == (dot(gravity@, gravity@) == 0),
        r matches Some(t) ==> t == floor_sqrt(
            4 * dot(vsub(goal@, start@), vsub(goal@, start@)) / dot(gravity@, gravity@),
        ),
{
    let dx = goal.x as i128 - start.x as i128;
    let dy = goal.y as i128 - start.y as i128;
    let ax = gravity.x as i128;
    let ay = gravity.y as i128;
    let dd = squared_norm(dx, dy);
    let aa = squared_norm(ax, ay);
    if aa == 0 {
        return None;
    }
    let q: u128 = 4 * dd / aa;
    let t = isqrt(q);
    proof {
        let num: int = 4 * dd;
        assert(num / (aa as int) <= num) by (nonlinear_arith)
            requires
                aa > 0,
                num >= 0,
        ;
        lemma_root_le(t as int, 0x4000_0000);
        lemma_abs_mul_le(0x4000_0000, 0x4000_0000, 0x4000_0000, 0x4000_0000);
    }
    Some(t as u64)
}

} // verus!
