//! Integer 2-D points and the exact geometric predicates at the bottom of
//! the boundary tracer: distance comparison, orientation (counter-clockwise
//! test) and the left-of-line pivot test.

use vstd::prelude::*;

verus! {

/// Largest coordinate magnitude the tracer accepts.  Keeping coordinates
/// within this bound keeps every intermediate product of the exact turning
/// angle comparison inside `i128`.
pub const COORD_LIMIT: i32 = 536870912;

/// A 2-D point with integer coordinates.  Points are value types: compared
/// and stored by value, never by identity.
#[derive(Clone, Copy, PartialEq, Eq, Structural, Debug, Hash)]
pub struct Point {
    pub x: i32,
    pub y: i32,
}

/// A directed segment between two points; `(a, b)` and `(b, a)` differ.
#[derive(Clone, Copy, PartialEq, Eq, Structural, Debug)]
pub struct Edge {
    pub start: Point,
    pub end: Point,
}

/// Coordinates small enough for the tracer's exact angle arithmetic.
pub open spec fn pt_in_bounds(p: Point) -> bool {
    &&& -(COORD_LIMIT as int) <= p.x as int <= COORD_LIMIT as int
    &&& -(COORD_LIMIT as int) <= p.y as int <= COORD_LIMIT as int
}

/// Squared Euclidean distance between two points.
pub open spec fn sq_dist(p: Point, q: Point) -> int {
    (p.x - q.x) * (p.x - q.x) + (p.y - q.y) * (p.y - q.y)
}

/// `p` is strictly within distance `d` of `q`: `d` is positive and the
/// squared distance is strictly below `d * d`.  No point lies strictly
/// within a non-positive distance of another.
pub open spec fn spec_within_distance(p: Point, q: Point, d: i64) -> bool {
    0 < d && sq_dist(p, q) < d * d
}

/// `p` is within distance `d` of `q`, boundary included: the squared
/// distance is at most `d * d`.  This is the inclusive companion of
/// `spec_within_distance`, used when enumerating candidates; the strict
/// form is used when pruning.
pub open spec fn spec_within_distance_inclusive(p: Point, q: Point, d: i64) -> bool {
    sq_dist(p, q) <= d * d
}

/// Twice the signed area of the triangle `(a, b, c)`: the cross product of
/// `b - a` and `c - a`.  Positive iff the three points make a strict
/// counter-clockwise turn.
pub open spec fn spec_cross(a: Point, b: Point, c: Point) -> int {
    (b.x - a.x) * (c.y - a.y) - (c.x - a.x) * (b.y - a.y)
}

/// `(a, b, c)` is a strict counter-clockwise turn.  Collinear triples do
/// not count.
pub open spec fn spec_orientation_ccw(a: Point, b: Point, c: Point) -> bool {
    spec_cross(a, b, c) > 0
}

/// Bounds a product from bounds on its factors.
pub proof fn lemma_mul_bound(a: int, b: int, m: int, n: int)
    requires
        -m <= a <= m,
        -n <= b <= n,
        0 <= m,
        0 <= n,
    ensures
        -(m * n) <= a * b <= m * n,
{
    assert(-(m * n) <= a * b <= m * n) by (nonlinear_arith)
        requires
            -m <= a <= m,
            -n <= b <= n,
            0 <= m,
            0 <= n,
    ;
}

/// Exact cross product of `b - a` and `c - a` over widened integers.
pub fn cross_val(a: Point, b: Point, c: Point) -> (v: i128)
    ensures
        v as int == spec_cross(a, b, c),
{
    let ux = b.x as i128 - a.x as i128;
    let uy = b.y as i128 - a.y as i128;
    let vx = c.x as i128 - a.x as i128;
    let vy = c.y as i128 - a.y as i128;
    proof {
        lemma_mul_bound(ux as int, vy as int, 0x1_0000_0000, 0x1_0000_0000);
        lemma_mul_bound(vx as int, uy as int, 0x1_0000_0000, 0x1_0000_0000);
    }
    ux * vy - vx * uy
}

/// The strict distance test: true iff the squared Euclidean distance
/// between `p` and `q` is strictly less than `d * d`, for a positive `d`.
pub fn within_distance(p: Point, q: Point, d: i64) -> (r: bool)
    ensures
        r == spec_within_distance(p, q, d),
{
    let dx = p.x as i128 - q.x as i128;
    let dy = p.y as i128 - q.y as i128;
    let dd = d as i128;
    proof {
        lemma_mul_bound(dx as int, dx as int, 0x1_0000_0000, 0x1_0000_0000);
        lemma_mul_bound(dy as int, dy as int, 0x1_0000_0000, 0x1_0000_0000);
        lemma_mul_bound(dd as int, dd as int, 0x8000_0000_0000_0000, 0x8000_0000_0000_0000);
    }
    d > 0 && dx * dx + dy * dy < dd * dd
}

/// The inclusive distance test: true iff the squared Euclidean distance
/// between `p` and `q` is at most `d * d`.
pub fn within_distance_inclusive(p: Point, q: Point, d: i64) -> (r: bool)
    ensures
        r == spec_within_distance_inclusive(p, q, d),
{
    let dx = p.x as i128 - q.x as i128;
    let dy = p.y as i128 - q.y as i128;
    let dd = d as i128;
    proof {
        lemma_mul_bound(dx as int, dx as int, 0x1_0000_0000, 0x1_0000_0000);
        lemma_mul_bound(dy as int, dy as int, 0x1_0000_0000, 0x1_0000_0000);
        lemma_mul_bound(dd as int, dd as int, 0x8000_0000_0000_0000, 0x8000_0000_0000_0000);
    }
    dx * dx + dy * dy <= dd * dd
}

/// Counter-clockwise test: true iff `(a, b, c)` makes a strict
/// counter-clockwise turn; collinear triples return false.
pub fn orientation_ccw(a: Point, b: Point, c: Point) -> (r: bool)
    ensures
        r == spec_orientation_ccw(a, b, c),
{
    let v = cross_val(a, b, c);
    v > 0
}

/// `p` lies strictly to the left of the directed line `a -> b`, by the sign
/// of the cross product of `b - a` and `p - a`.
pub fn left_of_line(a: Point, b: Point, p: Point) -> (r: bool)
    ensures
        r == (spec_cross(a, b, p) > 0),
{
    let v = cross_val(a, b, p);
    v > 0
}

/// A point is never strictly within a non-positive distance of itself, and
/// any positive `d` whose square exceeds the squared distance of a pair
/// admits that pair.
pub proof fn lemma_within_distance_range(p: Point, q: Point, d: i64)
    ensures
        p == q && d <= 0 ==> !spec_within_distance(p, q, d),
        0 < d && d * d > sq_dist(p, q) ==> spec_within_distance(p, q, d),
{
}

/// Collinear points never make a counter-clockwise turn, whichever ordering
/// of the three is asked.
pub proof fn lemma_collinear_not_ccw(a: Point, b: Point, c: Point)
    requires
        spec_cross(a, b, c) == 0,
    ensures
        !spec_orientation_ccw(a, b, c),
        !spec_orientation_ccw(b, c, a),
        !spec_orientation_ccw(c, a, b),
        !spec_orientation_ccw(a, c, b),
        !spec_orientation_ccw(c, b, a),
        !spec_orientation_ccw(b, a, c),
{
    let ax = a.x as int;
    let ay = a.y as int;
    let bx = b.x as int;
    let by = b.y as int;
    let cx = c.x as int;
    let cy = c.y as int;
    assert((cx - bx) * (ay - by) - (ax - bx) * (cy - by)
        == (bx - ax) * (cy - ay) - (cx - ax) * (by - ay)) by (nonlinear_arith);
    assert((ax - cx) * (by - cy) - (bx - cx) * (ay - cy)
        == (bx - ax) * (cy - ay) - (cx - ax) * (by - ay)) by (nonlinear_arith);
    assert((cx - ax) * (by - ay) - (bx - ax) * (cy - ay)
        == -((bx - ax) * (cy - ay) - (cx - ax) * (by - ay))) by (nonlinear_arith);
    assert((bx - cx) * (ay - cy) - (ax - cx) * (by - cy)
        == -((ax - cx) * (by - cy) - (bx - cx) * (ay - cy))) by (nonlinear_arith);
    assert((ax - bx) * (cy - by) - (cx - bx) * (ay - by)
        == -((cx - bx) * (ay - by) - (ax - bx) * (cy - by))) by (nonlinear_arith);
}

} // verus!
