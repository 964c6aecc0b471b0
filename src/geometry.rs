//! Plane vectors with exact orientation tests.
use vstd::prelude::*;

verus! {

/// Largest absolute value of a coordinate that the model accepts.
pub const COORD_LIMIT: i64 = 1073741824;

/// A point or a direction in the plane, in world units.
#[derive(Clone, Copy, Debug, PartialEq, Eq)]
pub struct Vec2 {
    pub x: i64,
    pub y: i64,
}

impl Vec2 {
    /// Both coordinates lie within `COORD_LIMIT`.
    pub open spec fn bounded(self) -> bool {
        -COORD_LIMIT <= self.x <= COORD_LIMIT && -COORD_LIMIT <= self.y <= COORD_LIMIT
    }

    pub fn new(x: i64, y: i64) -> (r: Vec2)
        ensures
            r.x == x,
            r.y == y,
    {
        Vec2 { x, y }
    }
}

/// The z component of the cross product `a × b`: positive when `b` turns
/// counter-clockwise from `a`, negative when it turns clockwise.
pub open spec fn cross(a: Vec2, b: Vec2) -> int {
    a.x * b.y - a.y * b.x
}

/// `b` lies strictly clockwise of `a`.
pub open spec fn clockwise(a: Vec2, b: Vec2) -> bool {
    cross(a, b) < 0
}

/// Squared Euclidean distance between two points.
pub open spec fn dist_sq(a: Vec2, b: Vec2) -> int {
    (b.x - a.x) * (b.x - a.x) + (b.y - a.y) * (b.y - a.y)
}

/// A product of two factors bounded by `k` in absolute value is bounded by `k * k`.
pub proof fn lemma_mul_abs_bound(a: int, b: int, k: int)
    requires
        -k <= a <= k,
        -k <= b <= k,
    ensures
        -(k * k) <= a * b <= k * k,
{
    assert(k * k >= 0) by (nonlinear_arith) requires k >= 0;
    assert(a * (-b) == -(a * b) && (-a) * b == -(a * b) && (-a) * (-b) == a * b) by (nonlinear_arith);
    if a >= 0 && b >= 0 {
        assert(a * b <= k * k) by (nonlinear_arith) requires 0 <= a <= k, 0 <= b <= k;
        assert(a * b >= 0) by (nonlinear_arith) requires 0 <= a, 0 <= b;
    } else if a >= 0 {
        assert(a * (-b) <= k * k) by (nonlinear_arith) requires 0 <= a <= k, 0 <= -b <= k;
        assert(a * b <= 0) by (nonlinear_arith) requires 0 <= a, b < 0;
    } else if b >= 0 {
        assert((-a) * b <= k * k) by (nonlinear_arith) requires 0 <= -a <= k, 0 <= b <= k;
        assert(a * b <= 0) by (nonlinear_arith) requires a < 0, 0 <= b;
    } else {
        assert((-a) * (-b) <= k * k) by (nonlinear_arith) requires 0 <= -a <= k, 0 <= -b <= k;
        assert(a * b >= 0) by (nonlinear_arith) requires a < 0, b < 0;
    }
}

/// Whether `b` lies strictly clockwise of `a`; the directions may be up to
/// twice `COORD_LIMIT` long on each axis.
pub fn is_clockwise(a: Vec2, b: Vec2) -> (r: bool)
    requires
        -2 * COORD_LIMIT <= a.x <= 2 * COORD_LIMIT,
        -2 * COORD_LIMIT <= a.y <= 2 * COORD_LIMIT,
        -2 * COORD_LIMIT <= b.x <= 2 * COORD_LIMIT,
        -2 * COORD_LIMIT <= b.y <= 2 * COORD_LIMIT,
    ensures
        r == clockwise(a, b),
{
    proof {
        lemma_mul_abs_bound(a.x as int, b.y as int, 2 * COORD_LIMIT);
        lemma_mul_abs_bound(a.y as int, b.x as int, 2 * COORD_LIMIT);
    }
    let c: i128 = (a.x as i128) * (b.y as i128) - (a.y as i128) * (b.x as i128);
    c < 0
}

/// The vector from `from` to `to`.
pub fn displacement(from: Vec2, to: Vec2) -> (r: Vec2)
    requires
        from.bounded(),
        to.bounded(),
    ensures
        r.x == to.x - from.x,
        r.y == to.y - from.y,
{
    Vec2 { x: to.x - from.x, y: to.y - from.y }
}

/// Squared distance between two bounded points; it always fits in `u64`.
pub fn distance_squared(a: Vec2, b: Vec2) -> (r: u64)
    requires
        a.bounded(),
        b.bounded(),
    ensures
        r == dist_sq(a, b),
{
    let d = displacement(a, b);
    let dx: i128 = d.x as i128;
    let dy: i128 = d.y as i128;
    proof {
        lemma_mul_abs_bound(dx as int, dx as int, 2 * COORD_LIMIT);
        lemma_mul_abs_bound(dy as int, dy as int, 2 * COORD_LIMIT);
        assert(dx * dx >= 0 && dy * dy >= 0) by (nonlinear_arith);
    }
    (dx * dx + dy * dy) as u64
}

} // verus!
