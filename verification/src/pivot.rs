//! The simpler, pivot-based tracing variant, kept for comparison.
//!
//! Instead of minimizing the turning angle, each step picks the most
//! counter-clockwise candidate by the left-of-line test, gift-wrapping
//! style, among the points within the inclusive maximum distance that are
//! not already on the outline; the first outline point is always appended
//! as a synthetic candidate so the loop can close.  A fixed iteration cap
//! guarantees termination even absent a natural closure, reported
//! distinctly from exhaustion since it indicates potential cycling.

use vstd::prelude::*;
use crate::geometry::{Point, spec_cross, left_of_line};
use crate::prepare::{
    spec_sort_by_x, spec_candidates, sort_points_by_x, candidates_within, vec_contains,
    lemma_sort_by_x_props,
};
use crate::tracer::{TraceResult, TraceModel};

verus! {

/// Cap on the iterations of the pivot variant.
pub const ITERATION_CAP: usize = 200;

/// The points of `s` that are not already on the outline, in order.
pub open spec fn spec_filter_not_in(s: Seq<Point>, outline: Seq<Point>) -> Seq<Point>
    decreases s.len(),
{
    if s.len() == 0 {
        Seq::empty()
    } else {
        let pre = spec_filter_not_in(s.drop_last(), outline);
        if outline.contains(s.last()) {
            pre
        } else {
            pre.push(s.last())
        }
    }
}

/// The pivot selection over the first `n` candidates: starting from the
/// first candidate, a candidate displaces the current pick when the pick
/// equals the current point or the candidate lies strictly to the left of
/// the line from the current point through the pick.
pub open spec fn spec_pivot_select(cands: Seq<Point>, start: Point, n: int) -> Point
    decreases n,
{
    if n <= 1 {
        cands[0]
    } else {
        let e = spec_pivot_select(cands, start, n - 1);
        if e == start || spec_cross(start, e, cands[n - 1]) > 0 {
            cands[n - 1]
        } else {
            e
        }
    }
}

/// One pivot step: once the cap is passed the trace stops with the budget
/// exceeded; otherwise the current point is committed, the most
/// counter-clockwise admissible candidate (or the first outline point, the
/// synthetic closing candidate) becomes the next current point, and
/// reaching the first outline point closes the outline.
pub open spec fn spec_pivot_step(
    pts: Seq<Point>,
    outline: Seq<Point>,
    start: Point,
    d: i64,
    i: int,
) -> TraceModel
    decreases ITERATION_CAP as int + 2 - i,
{
    if i > ITERATION_CAP as int {
        TraceModel::IterationBudgetExceeded(outline)
    } else {
        let outline1 = outline.push(start);
        let cands = spec_filter_not_in(spec_candidates(start, d, pts), outline1).push(outline1[0]);
        let end = spec_pivot_select(cands, start, cands.len() as int);
        if end == outline1[0] {
            TraceModel::Closed(outline1)
        } else {
            spec_pivot_step(pts, outline1, end, d, i + 1)
        }
    }
}

/// The whole pivot trace: sort the input by x-coordinate, refuse an empty
/// one, and step from the point with the smallest x-coordinate.
pub open spec fn spec_trace_pivot(points: Seq<Point>, d: i64) -> TraceModel {
    if points.len() == 0 {
        TraceModel::DegenerateInput
    } else {
        let s = spec_sort_by_x(points);
        spec_pivot_step(s, Seq::empty(), s[0], d, 0)
    }
}

/// Trace the outline of a point cloud with the pivot variant.
///
/// The result is a function of the input alone: it equals
/// `spec_trace_pivot` of the input sequence, and the input is refused as
/// degenerate exactly when it is empty.
pub fn trace_outline_pivot(points: &Vec<Point>, dist: i64) -> (r: TraceResult)
    ensures
        r@ == spec_trace_pivot(points@, dist),
        (r@ is DegenerateInput) <==> points@.len() == 0,
{
    if points.len() == 0 {
        return TraceResult::DegenerateInput;
    }
    let sorted = sort_points_by_x(points);
    proof {
        lemma_sort_by_x_props(points@);
    }
    let mut outline: Vec<Point> = Vec::new();
    let mut start = sorted[0];
    let mut i: usize = 0;
    while i <= ITERATION_CAP
        invariant
            points@.len() > 0,
            sorted@ == spec_sort_by_x(points@),
            sorted@.len() == points@.len(),
            0 <= i <= ITERATION_CAP + 1,
            spec_pivot_step(sorted@, outline@, start, dist, i as int) == spec_trace_pivot(
                points@,
                dist,
            ),
        decreases ITERATION_CAP + 1 - i,
    {
        let ghost out0 = outline@;
        let ghost start0 = start;
        outline.push(start);
        let cvec = candidates_within(start, dist, &sorted);
        let mut cands: Vec<Point> = Vec::new();
        let mut k: usize = 0;
        while k < cvec.len()
            invariant
                0 <= k <= cvec@.len(),
                outline@ == out0.push(start0),
                cands@ == spec_filter_not_in(cvec@.take(k as int), outline@),
            decreases cvec@.len() - k,
        {
            let p = cvec[k];
            proof {
                assert(cvec@.take(k as int + 1).drop_last() =~= cvec@.take(k as int));
                assert(cvec@.take(k as int + 1).last() == p);
            }
            if !vec_contains(&outline, p) {
                cands.push(p);
            }
            k = k + 1;
        }
        proof {
            assert(cvec@.take(cvec@.len() as int) =~= cvec@);
        }
        let f = outline[0];
        cands.push(f);
        let mut end = cands[0];
        let mut j: usize = 1;
        while j < cands.len()
            invariant
                1 <= j <= cands@.len(),
                cands@.len() >= 1,
                end == spec_pivot_select(cands@, start, j as int),
                start == start0,
            decreases cands@.len() - j,
        {
            if end == start || left_of_line(start, end, cands[j]) {
                end = cands[j];
            }
            j = j + 1;
        }
        start = end;
        if end == f {
            return TraceResult::Closed(outline);
        }
        i = i + 1;
    }
    TraceResult::IterationBudgetExceeded(outline)
}

} // verus!
