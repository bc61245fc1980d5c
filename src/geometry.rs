use vstd::prelude::*;

verus! {

/// Largest magnitude of a coordinate handed to `segment_intersection`.
pub const SEGMENT_LIMIT: i64 = 1099511627776;

/// A point or vector of the integer plane.
#[derive(Clone, Copy, Debug, PartialEq, Eq, Structural)]
pub struct Point2 {
    pub x: i64,
    pub y: i64,
}

impl View for Point2 {
    type V = (int, int);

    open spec fn view(&self) -> (int, int) {
        (self.x as int, self.y as int)
    }
}

impl Point2 {
    pub fn new(x: i64, y: i64) -> (r: Point2)
        ensures
            r.x == x,
            r.y == y,
    {
        Point2 { x, y }
    }
}

/// `r` is the floor of the square root of `n`.
pub open spec fn is_floor_sqrt(r: int, n: int) -> bool {
    0 <= r && r * r <= n && n < (r + 1) * (r + 1)
}

/// The floor of the square root of a non-negative integer.
pub open spec fn floor_sqrt(n: int) -> int {
    choose|r: int| is_floor_sqrt(r, n)
}

proof fn lemma_square_monotone(a: int, b: int)
    requires
        0 <= a <= b,
    ensures
        a * a <= b * b,
{
    assert(a * a <= b * b) by (nonlinear_arith)
        requires
            0 <= a <= b,
    ;
}

/// The floor square root is unique, so `floor_sqrt` names it.
pub proof fn lemma_floor_sqrt_unique(r: int, n: int)
    requires
        is_floor_sqrt(r, n),
    ensures
        floor_sqrt(n) == r,
{
    let c = floor_sqrt(n);
    assert(is_floor_sqrt(c, n));
    if c < r {
        lemma_square_monotone(c + 1, r);
    } else if r < c {
        lemma_square_monotone(r + 1, c);
    }
}

/// Floor square root of an unsigned integer, by bisection.
pub fn isqrt(n: u128) -> (r: u128)
    ensures
        is_floor_sqrt(r as int, n as int),
        r as int == floor_sqrt(n as int),
{
    // invariant: lo * lo <= n < hi * hi
    let mut lo: u128 = 0;
    let mut hi: u128 = 0x1_0000_0000_0000_0000;
    assert(n < hi * hi) by (nonlinear_arith)
        requires
            hi == 0x1_0000_0000_0000_0000u128,
            n <= u128::MAX,
    ;
    while hi - lo > 1
        invariant
            lo < hi <= 0x1_0000_0000_0000_0000,
            lo * lo <= n,
            n < hi * hi,
        decreases hi - lo,
    {
        let mid: u128 = lo + (hi - lo) / 2;
        assert(mid * mid < 0x1_0000_0000_0000_0000 * 0x1_0000_0000_0000_0000) by (nonlinear_arith)
            requires
                mid < 0x1_0000_0000_0000_0000,
        ;
        if mid * mid <= n {
            lo = mid;
        } else {
            hi = mid;
        }
    }
    assert(hi == lo + 1);
    proof {
        lemma_floor_sqrt_unique(lo as int, n as int);
    }
    lo
}


/// A non-negative `r` with `r * r <= b * b` is at most `b`.
pub proof fn lemma_root_le(r: int, b: int)
    requires
        0 <= r,
        0 <= b,
        r * r <= b * b,
    ensures
        r <= b,
{
    if r > b {
        lemma_square_monotone(b + 1, r);
        assert((b + 1) * (b + 1) > b * b) by (nonlinear_arith)
            requires
                b >= 0,
        ;
    }
}

/// `c` scaled by `sqrt(f / den)` and rounded toward zero:
/// `sign(c) * floor_sqrt(c² f / den)`.
pub open spec fn scaled_root(c: int, f: int, den: int) -> int {
    let m = floor_sqrt(c * c * f / den);
    if c < 0 {
        -m
    } else {
        m
    }
}

/// Rounding toward zero is symmetric: `scaled_root(-c) == -scaled_root(c)`.
pub proof fn lemma_scaled_root_neg(c: int, f: int, den: int)
    requires
        den > 0,
    ensures
        scaled_root(-c, f, den) == -scaled_root(c, f, den),
{
    assert((-c) * (-c) == c * c) by (nonlinear_arith);
    if c == 0 {
        lemma_floor_sqrt_unique(0, 0);
        assert(c * c * f / den == 0) by (nonlinear_arith)
            requires
                c == 0,
                den > 0,
        ;
    }
}

/// `c * sqrt(f / den)`, rounded toward zero.
pub fn signed_root(c: i64, f: u128, den: u128) -> (r: i64)
    requires
        den > 0,
        -0x8000_0000 <= c <= 0x8000_0000,
        f <= 0x4000_0000_0000_0000,
    ensures
        r == scaled_root(c as int, f as int, den as int),
        r * r <= c * c * f / (den as int),
{
    let ca: u128 = if c < 0 {
        (-(c as i128)) as u128
    } else {
        c as u128
    };
    proof {
        lemma_square_monotone(ca as int, 0x8000_0000);
        assert(ca * ca == c * c) by (nonlinear_arith)
            requires
                ca == c || ca == -c,
        ;
    }
    let c2: u128 = ca * ca;
    proof {
        assert(c2 * f <= 0x4000_0000_0000_0000 * 0x4000_0000_0000_0000) by (nonlinear_arith)
            requires
                c2 <= 0x4000_0000_0000_0000,
                f <= 0x4000_0000_0000_0000,
        ;
    }
    let n: u128 = c2 * f / den;
    let m = isqrt(n);
    proof {
        let prod: int = c2 * f;
        assert(prod / (den as int) <= prod) by (nonlinear_arith)
            requires
                den > 0,
                prod >= 0,
        ;
        lemma_root_le(m as int, 0x4000_0000_0000_0000);
        assert((-m) * (-m) == m * m) by (nonlinear_arith);
    }
    if c < 0 {
        -(m as i64)
    } else {
        m as i64
    }
}

/// A point with rational coordinates `(x_num / den, y_num / den)`, `den > 0`.
#[derive(Clone, Copy, Debug, PartialEq, Eq, Structural)]
pub struct RatPoint {
    pub x_num: i128,
    pub y_num: i128,
    pub den: i128,
}

pub open spec fn vsub(a: (int, int), b: (int, int)) -> (int, int) {
    (a.0 - b.0, a.1 - b.1)
}

pub open spec fn dot(a: (int, int), b: (int, int)) -> int {
    a.0 * b.0 + a.1 * b.1
}

/// The z-component of the 3D cross product of two plane vectors.
pub open spec fn cross(a: (int, int), b: (int, int)) -> int {
    a.0 * b.1 - a.1 * b.0
}

/// `num / den` lies in `[0, 1]`, for `den != 0`.
pub open spec fn unit_ratio(num: int, den: int) -> bool {
    if den > 0 {
        0 <= num <= den
    } else {
        den <= num <= 0
    }
}

/// Denominator of the crossing parameters of segments `p1p2` and `q1q2`.
pub open spec fn crossing_den(p1: (int, int), p2: (int, int), q1: (int, int), q2: (int, int)) -> int {
    cross(vsub(p2, p1), vsub(q2, q1))
}

/// Numerator of the parameter along `p1p2` where the two lines meet.
pub open spec fn crossing_t(p1: (int, int), p2: (int, int), q1: (int, int), q2: (int, int)) -> int {
    cross(vsub(q1, p1), vsub(q2, q1))
}

/// Numerator of the parameter along `q1q2` where the two lines meet.
pub open spec fn crossing_u(p1: (int, int), p2: (int, int), q1: (int, int), q2: (int, int)) -> int {
    cross(vsub(q1, p1), vsub(p2, p1))
}

/// Segments `p1p2` and `q1q2` are not parallel and meet at a point of both.
/// Parallel and collinear pairs never count as crossing.
pub open spec fn segments_cross(p1: (int, int), p2: (int, int), q1: (int, int), q2: (int, int)) -> bool {
    let den = crossing_den(p1, p2, q1, q2);
    den != 0 && unit_ratio(crossing_t(p1, p2, q1, q2), den) && unit_ratio(crossing_u(p1, p2, q1, q2), den)
}

/// The point `a + (num / den) (b - a)`, written over the denominator `den`.
pub open spec fn at_ratio(a: (int, int), b: (int, int), num: int, den: int) -> (int, int, int) {
    (a.0 * den + num * (b.0 - a.0), a.1 * den + num * (b.1 - a.1), den)
}

/// `x` with the sign of `den` taken out, so that `den` becomes positive.
pub open spec fn signed_by(x: int, den: int) -> int {
    if den > 0 {
        x
    } else {
        -x
    }
}

/// The common point of two crossing segments, as `p1 + t (p2 - p1)` over a
/// positive denominator.
pub open spec fn crossing_point(p1: (int, int), p2: (int, int), q1: (int, int), q2: (int, int)) -> (int, int, int) {
    let den = crossing_den(p1, p2, q1, q2);
    at_ratio(p1, p2, signed_by(crossing_t(p1, p2, q1, q2), den), signed_by(den, den))
}

pub open spec fn rat_view(r: RatPoint) -> (int, int, int) {
    (r.x_num as int, r.y_num as int, r.den as int)
}

pub open spec fn within_segment_limit(p: Point2) -> bool {
    -SEGMENT_LIMIT <= p.x <= SEGMENT_LIMIT && -SEGMENT_LIMIT <= p.y <= SEGMENT_LIMIT
}

proof fn lemma_mul_bound(a: int, b: int, ba: int, bb: int)
    requires
        -ba <= a <= ba,
        -bb <= b <= bb,
    ensures
        -(ba * bb) <= a * b <= ba * bb,
{
    assert(-(ba * bb) <= a * b <= ba * bb) by (nonlinear_arith)
        requires
            -ba <= a <= ba,
            -bb <= b <= bb,
    ;
}

/// The two ways of writing the meeting point of two lines agree:
/// `den * p1 + t * (p2 - p1) == den * q1 + u * (q2 - q1)`.
pub proof fn lemma_crossing_on_both(p1: (int, int), p2: (int, int), q1: (int, int), q2: (int, int))
    ensures
        ({
            let den = crossing_den(p1, p2, q1, q2);
            let t = crossing_t(p1, p2, q1, q2);
            let u = crossing_u(p1, p2, q1, q2);
            &&& p1.0 * den + t * (p2.0 - p1.0) == q1.0 * den + u * (q2.0 - q1.0)
            &&& p1.1 * den + t * (p2.1 - p1.1) == q1.1 * den + u * (q2.1 - q1.1)
        }),
{
    let den = crossing_den(p1, p2, q1, q2);
    let t = crossing_t(p1, p2, q1, q2);
    let u = crossing_u(p1, p2, q1, q2);
    let (ax, ay, bx, by) = (p2.0 - p1.0, p2.1 - p1.1, q2.0 - q1.0, q2.1 - q1.1);
    let (wx, wy) = (q1.0 - p1.0, q1.1 - p1.1);
    assert(den * wx == ax * by * wx - ay * bx * wx) by (nonlinear_arith)
        requires
            den == ax * by - ay * bx,
    ;
    assert(den * wy == ax * by * wy - ay * bx * wy) by (nonlinear_arith)
        requires
            den == ax * by - ay * bx,
    ;
    assert(t * ax == ax * by * wx - ax * bx * wy && t * ay == ay * by * wx - ay * bx * wy)
        by (nonlinear_arith)
        requires
            t == wx * by - wy * bx,
    ;
    assert(u * bx == ay * bx * wx - ax * bx * wy && u * by == ay * by * wx - ax * by * wy)
        by (nonlinear_arith)
        requires
            u == wx * ay - wy * ax,
    ;
    assert(p1.0 * den + t * ax == q1.0 * den + u * bx) by (nonlinear_arith)
        requires
            den * wx == t * ax - u * bx,
            wx == q1.0 - p1.0,
    ;
    assert(p1.1 * den + t * ay == q1.1 * den + u * by) by (nonlinear_arith)
        requires
            den * wy == t * ay - u * by,
            wy == q1.1 - p1.1,
    ;
}

/// Where two segments cross, the reported point is `p1 + t (p2 - p1)` and
/// also `q1 + u (q2 - q1)`, for parameters `t` and `u` in `[0, 1]`: it lies
/// exactly on both segments.
pub proof fn lemma_crossing_point_on_both_segments(
    p1: (int, int),
    p2: (int, int),
    q1: (int, int),
    q2: (int, int),
)
    requires
        segments_cross(p1, p2, q1, q2),
    ensures
        ({
            let den = crossing_den(p1, p2, q1, q2);
            let t = signed_by(crossing_t(p1, p2, q1, q2), den);
            let u = signed_by(crossing_u(p1, p2, q1, q2), den);
            let d = signed_by(den, den);
            &&& 0 <= t <= d
            &&& 0 <= u <= d
            &&& d > 0
            &&& crossing_point(p1, p2, q1, q2) == at_ratio(p1, p2, t, d)
            &&& crossing_point(p1, p2, q1, q2) == at_ratio(q1, q2, u, d)
        }),
{
    lemma_crossing_on_both(p1, p2, q1, q2);
    let den = crossing_den(p1, p2, q1, q2);
    let t = crossing_t(p1, p2, q1, q2);
    let u = crossing_u(p1, p2, q1, q2);
    if den < 0 {
        assert(p1.0 * -den + -t * (p2.0 - p1.0) == q1.0 * -den + -u * (q2.0 - q1.0)) by (nonlinear_arith)
            requires
                p1.0 * den + t * (p2.0 - p1.0) == q1.0 * den + u * (q2.0 - q1.0),
        ;
        assert(p1.1 * -den + -t * (p2.1 - p1.1) == q1.1 * -den + -u * (q2.1 - q1.1)) by (nonlinear_arith)
            requires
                p1.1 * den + t * (p2.1 - p1.1) == q1.1 * den + u * (q2.1 - q1.1),
        ;
    }
}

/// Whether two segments cross does not depend on the direction of the first.
pub proof fn lemma_segments_cross_reversed(p1: (int, int), p2: (int, int), q1: (int, int), q2: (int, int))
    ensures
        segments_cross(p2, p1, q1, q2) == segments_cross(p1, p2, q1, q2),
{
    let den = crossing_den(p1, p2, q1, q2);
    let t = crossing_t(p1, p2, q1, q2);
    let u = crossing_u(p1, p2, q1, q2);
    let (ax, ay, bx, by) = (p2.0 - p1.0, p2.1 - p1.1, q2.0 - q1.0, q2.1 - q1.1);
    let (wx, wy) = (q1.0 - p1.0, q1.1 - p1.1);
    assert(crossing_den(p2, p1, q1, q2) == -den) by (nonlinear_arith)
        requires
            den == ax * by - ay * bx,
            crossing_den(p2, p1, q1, q2) == (-ax) * by - (-ay) * bx,
    ;
    assert(crossing_t(p2, p1, q1, q2) == t - den) by (nonlinear_arith)
        requires
            den == ax * by - ay * bx,
            t == wx * by - wy * bx,
            crossing_t(p2, p1, q1, q2) == (wx - ax) * by - (wy - ay) * bx,
    ;
    assert(crossing_u(p2, p1, q1, q2) == -u) by (nonlinear_arith)
        requires
            u == wx * ay - wy * ax,
            crossing_u(p2, p1, q1, q2) == (wx - ax) * (-ay) - (wy - ay) * (-ax),
    ;
}

/// Where segments `p1p2` and `q1q2` cross, if they do. Parallel or collinear
/// segments give `None`; endpoints count as part of a segment.
pub fn segment_intersection(p1: Point2, p2: Point2, q1: Point2, q2: Point2) -> (r: Option<RatPoint>)
    requires
        within_segment_limit(p1),
        within_segment_limit(p2),
        within_segment_limit(q1),
        within_segment_limit(q2),
    ensures
        r.is_some() == segments_cross(p1@, p2@, q1@, q2@),
        r matches Some(pt) ==> rat_view(pt) == crossing_point(p1@, p2@, q1@, q2@) && pt.den
            <= 9671406556917033397649408,
{
    let ax = p2.x as i128 - p1.x as i128;
    let ay = p2.y as i128 - p1.y as i128;
    let bx = q2.x as i128 - q1.x as i128;
    let by = q2.y as i128 - q1.y as i128;
    let wx = q1.x as i128 - p1.x as i128;
    let wy = q1.y as i128 - p1.y as i128;
    proof {
        lemma_mul_bound(ax as int, by as int, 2199023255552, 2199023255552);
        lemma_mul_bound(ay as int, bx as int, 2199023255552, 2199023255552);
        lemma_mul_bound(wx as int, by as int, 2199023255552, 2199023255552);
        lemma_mul_bound(wy as int, bx as int, 2199023255552, 2199023255552);
        lemma_mul_bound(wx as int, ay as int, 2199023255552, 2199023255552);
        lemma_mul_bound(wy as int, ax as int, 2199023255552, 2199023255552);
    }
    let den = ax * by - ay * bx;
    let t = wx * by - wy * bx;
    let u = wx * ay - wy * ax;
    if den == 0 {
        return None;
    }
    let inside = if den > 0 {
        0 <= t && t <= den && 0 <= u && u <= den
    } else {
        den <= t && t <= 0 && den <= u && u <= 0
    };
    if !inside {
        return None;
    }
    proof {
        lemma_mul_bound(p1.x as int, den as int, 1099511627776, 9671406556917033397649408);
        lemma_mul_bound(p1.y as int, den as int, 1099511627776, 9671406556917033397649408);
        lemma_mul_bound(t as int, ax as int, 9671406556917033397649408, 2199023255552);
        lemma_mul_bound(t as int, ay as int, 9671406556917033397649408, 2199023255552);
    }
    let xn = p1.x as i128 * den + t * ax;
    let yn = p1.y as i128 * den + t * ay;
    if den > 0 {
        Some(RatPoint { x_num: xn, y_num: yn, den })
    } else {
        assert(-xn == p1.x * -den + -t * ax && -yn == p1.y * -den + -t * ay) by (nonlinear_arith)
            requires
                xn == p1.x * den + t * ax,
                yn == p1.y * den + t * ay,
        ;
        Some(RatPoint { x_num: -xn, y_num: -yn, den: -den })
    }
}

} // verus!
