//! Exact representation of the turning angle.
//!
//! The turning angle at `curr`, swept from the ray `curr -> old` to the ray
//! `curr -> new` in the clockwise sense, is `2*pi - atan2(cross, dot)`
//! brought into the half-open interval `(0, 2*pi]`, where `dot` and `cross`
//! are the dot and cross products of the two direction vectors.  That value
//! is exactly the polar angle of the integer vector `(dot, -cross)`, read
//! with the positive x-axis as a full turn `2*pi` rather than as 0.  An
//! `Angle` stores that vector, so turning angles are compared exactly, with
//! no floating point and no rounding: values near 0 are sharp back-turns,
//! the full turn `2*pi` is an exact reversal.

use vstd::prelude::*;
use crate::geometry::{Point, COORD_LIMIT, pt_in_bounds, lemma_mul_bound};

verus! {

/// Coordinate magnitude admitted by the exact angle computation; one power
/// of two above `COORD_LIMIT`, so the auxiliary seed point one unit below
/// the start point is admitted too.
pub const COORD_SLACK: i32 = 1073741824;

/// Bound on the components of a well-formed `Angle`; products of two such
/// components stay inside `i128`.
pub const ANGLE_LIMIT: i128 = 9223372036854775808;

/// A turning angle, stored exactly as the integer vector whose polar angle
/// it is (positive x-axis read as the full turn `2*pi`).
#[derive(Clone, Copy, PartialEq, Eq, Structural, Debug)]
pub struct Angle {
    pub x: i128,
    pub y: i128,
}

/// Coordinates admitted by the exact angle computation.
pub open spec fn pt_slack(p: Point) -> bool {
    &&& -(COORD_SLACK as int) <= p.x as int <= COORD_SLACK as int
    &&& -(COORD_SLACK as int) <= p.y as int <= COORD_SLACK as int
}

pub proof fn lemma_in_bounds_slack(p: Point)
    requires
        pt_in_bounds(p),
    ensures
        pt_slack(p),
{
}

/// First component of the turning angle vector: the dot product of the
/// directions `old -> curr` reversed and `curr -> new`.
pub open spec fn turn_x(old_pt: Point, curr: Point, new_pt: Point) -> int {
    (old_pt.x - curr.x) * (new_pt.x - curr.x) + (old_pt.y - curr.y) * (new_pt.y - curr.y)
}

/// Second component of the turning angle vector: the negated cross product
/// of the two directions.
pub open spec fn turn_y(old_pt: Point, curr: Point, new_pt: Point) -> int {
    (old_pt.y - curr.y) * (new_pt.x - curr.x) - (old_pt.x - curr.x) * (new_pt.y - curr.y)
}

/// Components small enough that comparison products stay inside `i128`.
pub open spec fn angle_wf(a: Angle) -> bool {
    &&& -ANGLE_LIMIT <= a.x as int <= ANGLE_LIMIT as int
    &&& -ANGLE_LIMIT <= a.y as int <= ANGLE_LIMIT as int
}

/// Which stretch of `(0, 2*pi]` the polar angle of `(x, y)` falls in:
/// 0 for `(0, pi]`, 1 for `(pi, 2*pi)`, 2 for exactly `2*pi` (the positive
/// x-axis, and, degenerately, the zero vector).
pub open spec fn spec_band(x: int, y: int) -> int {
    if y > 0 || (y == 0 && x < 0) {
        0int
    } else if y < 0 {
        1int
    } else {
        2int
    }
}

/// The polar angle of `(ax, ay)` is strictly smaller than the polar angle
/// of `(bx, by)`, both read in `(0, 2*pi]`.  Within one band the angles are
/// compared by the sign of the cross product of the two vectors.
pub open spec fn spec_angle_lt(ax: int, ay: int, bx: int, by: int) -> bool {
    ||| spec_band(ax, ay) < spec_band(bx, by)
    ||| (spec_band(ax, ay) == spec_band(bx, by) && ax * by > ay * bx)
}

/// The exact turning angle among three points: the angle at `curr` swept
/// clockwise from the ray towards `old_pt` to the ray towards `new_pt`,
/// as the vector `(dot, -cross)` of the two directions.
pub fn turning_angle(old_pt: Point, curr: Point, new_pt: Point) -> (a: Angle)
    requires
        pt_slack(old_pt),
        pt_slack(curr),
        pt_slack(new_pt),
        old_pt != curr,
        new_pt != curr,
    ensures
        a.x as int == turn_x(old_pt, curr, new_pt),
        a.y as int == turn_y(old_pt, curr, new_pt),
        angle_wf(a),
        !(a.x == 0 && a.y == 0),
{
    let ux = old_pt.x as i128 - curr.x as i128;
    let uy = old_pt.y as i128 - curr.y as i128;
    let vx = new_pt.x as i128 - curr.x as i128;
    let vy = new_pt.y as i128 - curr.y as i128;
    proof {
        lemma_mul_bound(ux as int, vx as int, 0x8000_0000, 0x8000_0000);
        lemma_mul_bound(uy as int, vy as int, 0x8000_0000, 0x8000_0000);
        lemma_mul_bound(uy as int, vx as int, 0x8000_0000, 0x8000_0000);
        lemma_mul_bound(ux as int, vy as int, 0x8000_0000, 0x8000_0000);
        lemma_turn_vector_nonzero(ux as int, uy as int, vx as int, vy as int);
    }
    Angle { x: ux * vx + uy * vy, y: uy * vx - ux * vy }
}

/// The dot and cross products of two nonzero integer vectors never vanish
/// together.
proof fn lemma_turn_vector_nonzero(ux: int, uy: int, vx: int, vy: int)
    requires
        !(ux == 0 && uy == 0),
        !(vx == 0 && vy == 0),
    ensures
        !(ux * vx + uy * vy == 0 && uy * vx - ux * vy == 0),
{
    if ux * vx + uy * vy == 0 && uy * vx - ux * vy == 0 {
        if vx == 0 {
            assert(uy == 0) by (nonlinear_arith)
                requires ux * vx + uy * vy == 0, vx == 0, vy != 0;
            assert(ux == 0) by (nonlinear_arith)
                requires uy * vx - ux * vy == 0, vx == 0, vy != 0;
            assert(false);
        } else {
            assert(ux * (vx * vx + vy * vy) == 0) by (nonlinear_arith)
                requires ux * vx + uy * vy == 0, uy * vx - ux * vy == 0;
            assert(vx * vx + vy * vy > 0) by (nonlinear_arith)
                requires vx != 0;
            assert(ux == 0) by (nonlinear_arith)
                requires ux * (vx * vx + vy * vy) == 0, vx * vx + vy * vy > 0;
            assert(uy * vx == 0) by (nonlinear_arith)
                requires uy * vx - ux * vy == 0, ux == 0;
            assert(uy == 0) by (nonlinear_arith)
                requires uy * vx == 0, vx != 0;
            assert(false);
        }
    }
}

/// Exact comparison of two turning angles, both read in `(0, 2*pi]`.
pub fn angle_lt(a: Angle, b: Angle) -> (r: bool)
    requires
        angle_wf(a),
        angle_wf(b),
    ensures
        r == spec_angle_lt(a.x as int, a.y as int, b.x as int, b.y as int),
{
    let band_a: u8 = if a.y > 0 || (a.y == 0 && a.x < 0) {
        0
    } else if a.y < 0 {
        1
    } else {
        2
    };
    let band_b: u8 = if b.y > 0 || (b.y == 0 && b.x < 0) {
        0
    } else if b.y < 0 {
        1
    } else {
        2
    };
    if band_a != band_b {
        band_a < band_b
    } else {
        proof {
            lemma_mul_bound(a.x as int, b.y as int, ANGLE_LIMIT as int, ANGLE_LIMIT as int);
            lemma_mul_bound(a.y as int, b.x as int, ANGLE_LIMIT as int, ANGLE_LIMIT as int);
        }
        a.x * b.y > a.y * b.x
    }
}

/// The turning angle among three points always lies in `(0, 2*pi]`: it is a
/// genuine direction (the representing vector never vanishes, so the absent
/// angle 0 is never produced; an exact reversal is read as the full turn
/// `2*pi`), and no turning angle exceeds the full turn, whose vector is
/// `(1, 0)`.
pub proof fn lemma_turning_angle_range(old_pt: Point, curr: Point, new_pt: Point)
    requires
        old_pt != curr,
        new_pt != curr,
    ensures
        !(turn_x(old_pt, curr, new_pt) == 0 && turn_y(old_pt, curr, new_pt) == 0),
        !spec_angle_lt(1, 0, turn_x(old_pt, curr, new_pt), turn_y(old_pt, curr, new_pt)),
{
    let ux = old_pt.x - curr.x;
    let uy = old_pt.y - curr.y;
    let vx = new_pt.x - curr.x;
    let vy = new_pt.y - curr.y;
    lemma_turn_vector_nonzero(ux, uy, vx, vy);
    assert(turn_x(old_pt, curr, new_pt) == ux * vx + uy * vy);
    assert(turn_y(old_pt, curr, new_pt) == uy * vx - ux * vy);
}

/// The full turn `2*pi` is the largest value any angle comparison admits.
pub proof fn lemma_full_turn_is_max(x: int, y: int)
    ensures
        !spec_angle_lt(1, 0, x, y),
{
}

/// Whatever is not below `b` lies strictly above anything strictly below
/// `b`: the angle order compares every two angles.
pub proof fn lemma_angle_lt_cotrans(
    ax: int,
    ay: int,
    bx: int,
    by: int,
    cx: int,
    cy: int,
)
    requires
        spec_angle_lt(ax, ay, bx, by),
        !spec_angle_lt(cx, cy, bx, by),
    ensures
        spec_angle_lt(ax, ay, cx, cy),
{
    if spec_band(cx, cy) == spec_band(bx, by) && spec_band(ax, ay) == spec_band(bx, by) {
        let band = spec_band(ax, ay);
        if band == 0 {
            if by == 0 {
                assert(ay > 0) by (nonlinear_arith)
                    requires ax * by > ay * bx, by == 0, bx < 0;
                assert(cy <= 0) by (nonlinear_arith)
                    requires !(cx * by > cy * bx), by == 0, bx < 0;
                assert(cy == 0 && cx < 0);
                assert(ax * cy > ay * cx) by (nonlinear_arith)
                    requires cy == 0, cx < 0, ay > 0;
            } else if ay == 0 {
                assert(false) by (nonlinear_arith)
                    requires ax * by > ay * bx, ay == 0, ax < 0, by > 0;
            } else if cy == 0 {
                assert(ax * cy > ay * cx) by (nonlinear_arith)
                    requires cy == 0, cx < 0, ay > 0;
            } else {
                assert(ax * cy > ay * cx) by (nonlinear_arith)
                    requires
                        ax * by > ay * bx,
                        !(cx * by > cy * bx),
                        ay > 0,
                        by > 0,
                        cy > 0,
                ;
            }
        } else if band == 1 {
            assert(ax * cy > ay * cx) by (nonlinear_arith)
                requires
                    ax * by > ay * bx,
                    !(cx * by > cy * bx),
                    ay < 0,
                    by < 0,
                    cy < 0,
            ;
        } else {
            assert(false) by (nonlinear_arith)
                requires ax * by > ay * bx, ay == 0, by == 0;
        }
    }
}

/// The angle order is transitive.
pub proof fn lemma_angle_lt_trans(
    ax: int,
    ay: int,
    bx: int,
    by: int,
    cx: int,
    cy: int,
)
    requires
        spec_angle_lt(ax, ay, bx, by),
        spec_angle_lt(bx, by, cx, cy),
    ensures
        spec_angle_lt(ax, ay, cx, cy),
{
    if spec_band(ax, ay) == spec_band(bx, by) && spec_band(bx, by) == spec_band(cx, cy) {
        let band = spec_band(ax, ay);
        if band == 0 {
            if ay == 0 {
                assert(by < 0) by (nonlinear_arith)
                    requires ax * by > ay * bx, ay == 0, ax < 0;
                assert(false);
            } else if by == 0 {
                assert(cy < 0) by (nonlinear_arith)
                    requires bx * cy > by * cx, by == 0, bx < 0;
                assert(false);
            } else if cy == 0 {
                assert(ax * cy > ay * cx) by (nonlinear_arith)
                    requires cy == 0, cx < 0, ay > 0;
            } else {
                assert(ax * cy > ay * cx) by (nonlinear_arith)
                    requires ax * by > ay * bx, bx * cy > by * cx, ay > 0, by > 0, cy > 0;
            }
        } else if band == 1 {
            assert(ax * cy > ay * cx) by (nonlinear_arith)
                requires ax * by > ay * bx, bx * cy > by * cx, ay < 0, by < 0, cy < 0;
        } else {
            assert(false) by (nonlinear_arith)
                requires ax * by > ay * bx, ay == 0, by == 0;
        }
    }
}

} // verus!
