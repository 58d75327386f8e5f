//! Exact segment-intersection test and the self-intersection guard.
//!
//! Two segments count as intersecting only when they cross at a single
//! point interior to both, that is, when each segment's endpoints lie
//! strictly on opposite sides of the other's supporting line.  A meeting at
//! any of the four endpoints (grazing contact, a shared vertex between
//! adjacent outline edges) is not a crossing, and collinear or parallel
//! segments never cross.  A crossing with non-integer coordinates is always
//! interior, so it always counts.

use vstd::prelude::*;
use crate::geometry::{Point, Edge, spec_cross, cross_val};

verus! {

/// Both endpoints of `f` lie strictly on opposite sides of the line
/// through `e`.
pub open spec fn spec_straddles(e: Edge, f: Edge) -> bool {
    ||| (spec_cross(e.start, e.end, f.start) > 0 && spec_cross(e.start, e.end, f.end) < 0)
    ||| (spec_cross(e.start, e.end, f.start) < 0 && spec_cross(e.start, e.end, f.end) > 0)
}

/// The two segments cross at a point interior to both.
pub open spec fn spec_segments_intersect(e: Edge, f: Edge) -> bool {
    spec_straddles(e, f) && spec_straddles(f, e)
}

/// Exact segment-intersection test.
pub fn segments_intersect(e: Edge, f: Edge) -> (r: bool)
    ensures
        r == spec_segments_intersect(e, f),
{
    let o1 = cross_val(e.start, e.end, f.start);
    let o2 = cross_val(e.start, e.end, f.end);
    let o3 = cross_val(f.start, f.end, e.start);
    let o4 = cross_val(f.start, f.end, e.end);
    ((o1 > 0 && o2 < 0) || (o1 < 0 && o2 > 0)) && ((o3 > 0 && o4 < 0) || (o3 < 0 && o4 > 0))
}

/// The intersection test does not depend on the order of the two segments.
pub proof fn lemma_segments_intersect_symmetric(e: Edge, f: Edge)
    ensures
        spec_segments_intersect(e, f) == spec_segments_intersect(f, e),
{
}

/// Segments that share an endpoint never count as intersecting: their only
/// possible meeting point is that endpoint, which is not interior to either.
pub proof fn lemma_shared_endpoint_not_intersecting(e: Edge, f: Edge)
    requires
        e.start == f.start || e.start == f.end || e.end == f.start || e.end == f.end,
    ensures
        !spec_segments_intersect(e, f),
{
    lemma_cross_degenerate(e.start, e.end);
    lemma_cross_degenerate(f.start, f.end);
}

/// The cross product vanishes when the third point is one of the first two.
proof fn lemma_cross_degenerate(a: Point, b: Point)
    ensures
        spec_cross(a, b, a) == 0,
        spec_cross(a, b, b) == 0,
{
    assert((b.x - a.x) * (a.y - a.y) - (a.x - a.x) * (b.y - a.y) == 0) by (nonlinear_arith);
    assert((b.x - a.x) * (b.y - a.y) - (b.x - a.x) * (b.y - a.y) == 0) by (nonlinear_arith);
}

/// The committed edge at position `j` of an outline: from the outline's
/// `j`-th point to its `j + 1`-st.
pub open spec fn spec_outline_edge(outline: Seq<Point>, j: int) -> Edge {
    Edge { start: outline[j], end: outline[j + 1] }
}

/// The proposed edge `e` crosses some committed outline edge other than
/// itself.
pub open spec fn spec_edge_hits_outline(e: Edge, outline: Seq<Point>) -> bool {
    exists|j: int|
        0 <= j < outline.len() - 1 && #[trigger] spec_outline_edge(outline, j) != e
            && spec_segments_intersect(e, spec_outline_edge(outline, j))
}

/// Self-intersection guard: whether the proposed edge `e` would cross any
/// edge already committed in the outline, other than itself.
pub fn would_intersect_outline(e: Edge, outline: &Vec<Point>) -> (r: bool)
    ensures
        r == spec_edge_hits_outline(e, outline@),
{
    if outline.len() < 2 {
        return false;
    }
    let n = outline.len() - 1;
    let mut j: usize = 0;
    while j < n
        invariant
            outline@.len() >= 2,
            n == outline@.len() - 1,
            0 <= j <= n,
            forall|k: int|
                0 <= k < j ==> !(#[trigger] spec_outline_edge(outline@, k) != e
                    && spec_segments_intersect(e, spec_outline_edge(outline@, k))),
        decreases n - j,
    {
        let other = Edge { start: outline[j], end: outline[j + 1] };
        if other != e && segments_intersect(e, other) {
            assert(spec_outline_edge(outline@, j as int) != e
                && spec_segments_intersect(e, spec_outline_edge(outline@, j as int)));
            return true;
        }
        j = j + 1;
    }
    false
}

/// The committed edges of an outline, in order: one edge for each pair of
/// consecutive outline points.
pub open spec fn spec_edges_of(points: Seq<Point>) -> Seq<Edge> {
    if points.len() == 0 {
        Seq::empty()
    } else {
        Seq::new((points.len() - 1) as nat, |j: int| spec_outline_edge(points, j))
    }
}

/// The sequence of edges formed by consecutive pairs of the given points.
pub fn edges_of_outline(points: &Vec<Point>) -> (r: Vec<Edge>)
    ensures
        r@ == spec_edges_of(points@),
{
    let mut r: Vec<Edge> = Vec::new();
    if points.len() == 0 {
        assert(r@ =~= spec_edges_of(points@));
        return r;
    }
    let n = points.len() - 1;
    let mut j: usize = 0;
    while j < n
        invariant
            points@.len() >= 1,
            n == points@.len() - 1,
            0 <= j <= n,
            r@.len() == j,
            forall|k: int| 0 <= k < j ==> r@[k] == spec_outline_edge(points@, k),
        decreases n - j,
    {
        r.push(Edge { start: points[j], end: points[j + 1] });
        j = j + 1;
    }
    assert(r@ =~= spec_edges_of(points@));
    r
}

} // verus!
