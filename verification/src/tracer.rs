//! The boundary tracer.
//!
//! Starting from the point with the smallest x-coordinate of the prepared
//! (deduplicated, stably x-sorted) input, the tracer repeatedly selects,
//! among the remaining points that are strictly within the maximum edge
//! length and whose edge would not cross an already-committed outline edge,
//! the one with the smallest turning angle (ties go to the first
//! encountered).  The sweep is seeded by an auxiliary previous point one
//! unit below the start.  Tracing ends Closed when returning to the first
//! point is not worse than the best continuation — the closing edge itself
//! is implied, not stored — and Stuck when no admissible candidate remains.
//! An empty input is refused as DegenerateInput.

use vstd::prelude::*;
use crate::geometry::{Point, Edge, pt_in_bounds, spec_within_distance, within_distance};
use crate::angle::{
    Angle, pt_slack, angle_wf, turn_x, turn_y, spec_angle_lt, turning_angle, angle_lt,
    lemma_in_bounds_slack,
};
use crate::intersect::{
    spec_edge_hits_outline, spec_outline_edge, spec_segments_intersect, would_intersect_outline,
    lemma_segments_intersect_symmetric,
};
use crate::prepare::{
    spec_prepare, prepare_points, lemma_dedup_contains, lemma_dedup_no_duplicates,
    lemma_sort_by_x_props,
};

verus! {

/// The fixed maximum edge length of the reference scenario.
pub const DIST: i64 = 8;

/// Outcome of a trace, carrying the outline accumulated so far.
pub enum TraceResult {
    /// The trace returned to its first point: a closed boundary, the final
    /// edge back to the first point implied.
    Closed(Vec<Point>),
    /// No admissible candidate remained: a partial, non-closed boundary.
    Stuck(Vec<Point>),
    /// The input was empty after deduplication; tracing never started.
    DegenerateInput,
    /// The pivot variant's iteration cap was reached without closure.
    IterationBudgetExceeded(Vec<Point>),
}

/// The mathematical value of a trace outcome.
pub enum TraceModel {
    Closed(Seq<Point>),
    Stuck(Seq<Point>),
    DegenerateInput,
    IterationBudgetExceeded(Seq<Point>),
}

impl View for TraceResult {
    type V = TraceModel;

    open spec fn view(&self) -> TraceModel {
        match self {
            TraceResult::Closed(v) => TraceModel::Closed(v@),
            TraceResult::Stuck(v) => TraceModel::Stuck(v@),
            TraceResult::DegenerateInput => TraceModel::DegenerateInput,
            TraceResult::IterationBudgetExceeded(v) => TraceModel::IterationBudgetExceeded(v@),
        }
    }
}

/// The auxiliary previous point seeding the first turning angle: one unit
/// below the start, which fixes the initial sweep direction to upward.
pub open spec fn spec_below(p: Point) -> Point {
    Point { x: p.x, y: (p.y - 1) as i32 }
}

/// A candidate `end` is admissible from `start`: strictly within distance
/// `d`, and, once the outline has at least two points, the proposed edge
/// crosses no committed outline edge.
pub open spec fn spec_admissible(start: Point, end: Point, outline: Seq<Point>, d: i64) -> bool {
    &&& spec_within_distance(start, end, d)
    &&& (outline.len() > 1 ==> !spec_edge_hits_outline(Edge { start, end }, outline))
}

/// The best candidate among the first `n` remaining points: the index of
/// the admissible point with the smallest turning angle seen so far,
/// together with the components of that angle.  Ties keep the earlier
/// index.
pub open spec fn spec_best_prefix(
    rem: Seq<Point>,
    outline: Seq<Point>,
    prev: Point,
    start: Point,
    d: i64,
    n: int,
) -> Option<(int, int, int)>
    decreases n,
{
    if n <= 0 {
        None
    } else {
        let prior = spec_best_prefix(rem, outline, prev, start, d, n - 1);
        let c = rem[n - 1];
        if spec_admissible(start, c, outline, d) {
            let ax = turn_x(prev, start, c);
            let ay = turn_y(prev, start, c);
            match prior {
                None => Some((n - 1, ax, ay)),
                Some((bi, bx, by)) => if spec_angle_lt(ax, ay, bx, by) {
                    Some((n - 1, ax, ay))
                } else {
                    prior
                },
            }
        } else {
            prior
        }
    }
}

/// What the selection returns: `None` exactly when no point of the prefix
/// is admissible, otherwise an in-range admissible index and its angle.
pub proof fn lemma_best_prefix_props(
    rem: Seq<Point>,
    outline: Seq<Point>,
    prev: Point,
    start: Point,
    d: i64,
    n: int,
)
    requires
        0 <= n <= rem.len(),
    ensures
        match spec_best_prefix(rem, outline, prev, start, d, n) {
            None => forall|k: int|
                0 <= k < n ==> !spec_admissible(start, #[trigger] rem[k], outline, d),
            Some((bi, bx, by)) => {
                &&& 0 <= bi < n
                &&& spec_admissible(start, rem[bi], outline, d)
                &&& bx == turn_x(prev, start, rem[bi])
                &&& by == turn_y(prev, start, rem[bi])
            },
        },
    decreases n,
{
    if n > 0 {
        lemma_best_prefix_props(rem, outline, prev, start, d, n - 1);
    }
}

/// The selection is a true minimum: no admissible point of the prefix has
/// a turning angle strictly smaller than the selected one.
pub proof fn lemma_best_prefix_minimal(
    rem: Seq<Point>,
    outline: Seq<Point>,
    prev: Point,
    start: Point,
    d: i64,
    n: int,
)
    requires
        0 <= n <= rem.len(),
    ensures
        match spec_best_prefix(rem, outline, prev, start, d, n) {
            None => true,
            Some((bi, bx, by)) => forall|k: int|
                0 <= k < n && spec_admissible(start, #[trigger] rem[k], outline, d)
                    ==> !spec_angle_lt(
                    turn_x(prev, start, rem[k]),
                    turn_y(prev, start, rem[k]),
                    bx,
                    by,
                ),
        },
    decreases n,
{
    if n > 0 {
        lemma_best_prefix_minimal(rem, outline, prev, start, d, n - 1);
        let prior = spec_best_prefix(rem, outline, prev, start, d, n - 1);
        let c = rem[n - 1];
        if spec_admissible(start, c, outline, d) {
            let ax = turn_x(prev, start, c);
            let ay = turn_y(prev, start, c);
            match prior {
                None => {
                    lemma_best_prefix_props(rem, outline, prev, start, d, n - 1);
                },
                Some((bi, bx, by)) => {
                    if spec_angle_lt(ax, ay, bx, by) {
                        assert forall|k: int|
                            0 <= k < n && spec_admissible(start, #[trigger] rem[k], outline, d)
                            implies !spec_angle_lt(
                            turn_x(prev, start, rem[k]),
                            turn_y(prev, start, rem[k]),
                            ax,
                            ay,
                        ) by {
                            if k < n - 1 && spec_angle_lt(
                                turn_x(prev, start, rem[k]),
                                turn_y(prev, start, rem[k]),
                                ax,
                                ay,
                            ) {
                                crate::angle::lemma_angle_lt_trans(
                                    turn_x(prev, start, rem[k]),
                                    turn_y(prev, start, rem[k]),
                                    ax,
                                    ay,
                                    bx,
                                    by,
                                );
                            }
                        }
                    }
                },
            }
        }
    }
}

/// Ties go to the first encountered: every admissible point before the
/// selected one has a strictly larger turning angle.
pub proof fn lemma_best_prefix_first(
    rem: Seq<Point>,
    outline: Seq<Point>,
    prev: Point,
    start: Point,
    d: i64,
    n: int,
)
    requires
        0 <= n <= rem.len(),
    ensures
        match spec_best_prefix(rem, outline, prev, start, d, n) {
            None => true,
            Some((bi, bx, by)) => forall|k: int|
                0 <= k < bi && spec_admissible(start, #[trigger] rem[k], outline, d)
                    ==> spec_angle_lt(
                    bx,
                    by,
                    turn_x(prev, start, rem[k]),
                    turn_y(prev, start, rem[k]),
                ),
        },
    decreases n,
{
    if n > 0 {
        lemma_best_prefix_first(rem, outline, prev, start, d, n - 1);
        lemma_best_prefix_props(rem, outline, prev, start, d, n - 1);
        lemma_best_prefix_minimal(rem, outline, prev, start, d, n - 1);
        let prior = spec_best_prefix(rem, outline, prev, start, d, n - 1);
        let c = rem[n - 1];
        if spec_admissible(start, c, outline, d) {
            let ax = turn_x(prev, start, c);
            let ay = turn_y(prev, start, c);
            match prior {
                None => {},
                Some((pi, px, py)) => {
                    if spec_angle_lt(ax, ay, px, py) {
                        assert forall|k: int|
                            0 <= k < n - 1 && spec_admissible(start, #[trigger] rem[k], outline, d)
                            implies spec_angle_lt(
                            ax,
                            ay,
                            turn_x(prev, start, rem[k]),
                            turn_y(prev, start, rem[k]),
                        ) by {
                            crate::angle::lemma_angle_lt_cotrans(
                                ax,
                                ay,
                                px,
                                py,
                                turn_x(prev, start, rem[k]),
                                turn_y(prev, start, rem[k]),
                            );
                        }
                    }
                },
            }
        }
    }
}

/// One trace from a given state: select the best admissible candidate; if
/// none exists the trace is Stuck; if returning from the candidate to the
/// first point is admissible by distance and not worse than the best
/// continuation, the outline closes with that candidate; otherwise commit
/// the candidate and continue.
pub open spec fn spec_trace_step(
    rem: Seq<Point>,
    outline: Seq<Point>,
    prev: Point,
    start: Point,
    first: Point,
    d: i64,
) -> TraceModel
    decreases rem.len(),
{
    match spec_best_prefix(rem, outline, prev, start, d, rem.len() as int) {
        None => TraceModel::Stuck(outline),
        Some((bi, bx, by)) => {
            if !(0 <= bi < rem.len()) {
                TraceModel::Stuck(outline)
            } else {
                let c = rem[bi];
                if spec_within_distance(first, c, d) && !spec_angle_lt(
                    bx,
                    by,
                    turn_x(start, c, first),
                    turn_y(start, c, first),
                ) {
                    TraceModel::Closed(outline.push(c))
                } else {
                    spec_trace_step(rem.remove(bi), outline.push(c), start, c, first, d)
                }
            }
        },
    }
}

/// The whole trace: prepare the input, refuse an empty one, otherwise seed
/// the sweep at the point with the smallest x-coordinate and step until the
/// outline closes or no candidate remains.
pub open spec fn spec_trace(points: Seq<Point>, d: i64) -> TraceModel {
    let s = spec_prepare(points);
    if s.len() == 0 {
        TraceModel::DegenerateInput
    } else {
        spec_trace_step(s.drop_first(), seq![s[0]], spec_below(s[0]), s[0], s[0], d)
    }
}

/// Trace the outline of a point cloud.
///
/// The result is a function of the input alone: it equals `spec_trace` of
/// the input sequence, and the input is refused as degenerate exactly when
/// it is empty.
pub fn trace_outline(points: &Vec<Point>, dist: i64) -> (r: TraceResult)
    requires
        forall|k: int| 0 <= k < points@.len() ==> pt_in_bounds(#[trigger] points@[k]),
    ensures
        r@ == spec_trace(points@, dist),
        (r@ is DegenerateInput) <==> points@.len() == 0,
        match r@ {
            TraceModel::Closed(o) => spec_outline_sound(o, points@),
            TraceModel::Stuck(o) => spec_outline_sound(o, points@),
            _ => true,
        },
{
    let mut remaining = prepare_points(points);
    proof {
        lemma_prepare_props(points@);
        lemma_trace_never_self_intersects(points@, dist);
    }
    if remaining.len() == 0 {
        return TraceResult::DegenerateInput;
    }
    let ghost prepared = remaining@;
    let first = remaining.remove(0);
    proof {
        assert(remaining@ =~= prepared.drop_first());
    }
    let mut outline: Vec<Point> = Vec::new();
    outline.push(first);
    proof {
        assert(outline@ =~= seq![first]);
    }
    proof {
        assert forall|k: int| 0 <= k < prepared.len()
            implies pt_in_bounds(#[trigger] prepared[k]) by {
            assert(points@.contains(prepared[k]));
            let i = choose|i: int| 0 <= i < points@.len() && points@[i] == prepared[k];
            assert(pt_in_bounds(points@[i]));
        }
    }
    let mut prev = Point { x: first.x, y: first.y - 1 };
    let mut start = first;
    proof {
        assert(first == prepared[0]);
        assert(forall|k: int|
            0 <= k < remaining@.len() ==> #[trigger] remaining@[k] == prepared[k + 1]);
        assert forall|k: int| 0 <= k < remaining@.len()
            implies !outline@.contains(#[trigger] remaining@[k]) by {
            assert(remaining@[k] == prepared[k + 1]);
            assert(prepared[k + 1] != prepared[0]);
            if outline@.contains(remaining@[k]) {
                let j = choose|j: int| 0 <= j < outline@.len() && outline@[j] == remaining@[k];
                assert(j == 0);
                assert(false);
            }
        }
        assert(remaining@.no_duplicates()) by {
            assert forall|x: int, y: int|
                0 <= x < remaining@.len() && 0 <= y < remaining@.len() && x != y
                implies remaining@[x] != remaining@[y] by {
                assert(remaining@[x] == prepared[x + 1]);
                assert(remaining@[y] == prepared[y + 1]);
            }
        }
        assert(prev == spec_below(first));
        assert(outline@.last() == first);
        assert(spec_trace_step(remaining@, outline@, prev, start, first, dist) == spec_trace(
            points@,
            dist,
        ));
    }
    while remaining.len() > 0
        invariant
            forall|k: int| 0 <= k < remaining@.len() ==> pt_in_bounds(#[trigger] remaining@[k]),
            forall|k: int| 0 <= k < outline@.len() ==> pt_in_bounds(#[trigger] outline@[k]),
            pt_slack(prev),
            pt_in_bounds(start),
            pt_in_bounds(first),
            prev != start,
            outline@.len() >= 1,
            outline@[0] == first,
            outline@.last() == start,
            remaining@.no_duplicates(),
            forall|k: int|
                0 <= k < remaining@.len() ==> !outline@.contains(#[trigger] remaining@[k]),
            spec_trace_step(remaining@, outline@, prev, start, first, dist) == spec_trace(
                points@,
                dist,
            ),
            points@.len() > 0,
        decreases remaining@.len(),
    {
        let ghost rem0 = remaining@;
        let ghost out0 = outline@;
        let mut has_best: bool = false;
        let mut best_idx: usize = 0;
        let mut best_ang = Angle { x: 1, y: 0 };
        let mut i: usize = 0;
        while i < remaining.len()
            invariant
                remaining@ == rem0,
                outline@ == out0,
                forall|k: int|
                    0 <= k < remaining@.len() ==> pt_in_bounds(#[trigger] remaining@[k]),
                forall|k: int| 0 <= k < outline@.len() ==> pt_in_bounds(#[trigger] outline@[k]),
                pt_slack(prev),
                pt_in_bounds(start),
                prev != start,
                outline@.len() >= 1,
                outline@.last() == start,
                forall|k: int|
                    0 <= k < remaining@.len() ==> !outline@.contains(#[trigger] remaining@[k]),
                0 <= i <= remaining@.len(),
                !has_best ==> spec_best_prefix(remaining@, outline@, prev, start, dist, i as int)
                    is None,
                has_best ==> {
                    &&& best_idx < i
                    &&& angle_wf(best_ang)
                    &&& spec_best_prefix(remaining@, outline@, prev, start, dist, i as int)
                        == Some((best_idx as int, best_ang.x as int, best_ang.y as int))
                },
            decreases remaining@.len() - i,
        {
            let c = remaining[i];
            let mut adm = within_distance(start, c, dist);
            if adm && outline.len() > 1 {
                adm = !would_intersect_outline(Edge { start, end: c }, &outline);
            }
            assert(adm == spec_admissible(start, c, outline@, dist));
            if adm {
                proof {
                    lemma_in_bounds_slack(start);
                    lemma_in_bounds_slack(c);
                    assert(outline@.contains(start)) by {
                        assert(outline@[outline@.len() - 1] == start);
                    }
                    assert(c != start);
                }
                let a = turning_angle(prev, start, c);
                if !has_best {
                    has_best = true;
                    best_idx = i;
                    best_ang = a;
                } else if angle_lt(a, best_ang) {
                    best_idx = i;
                    best_ang = a;
                }
            }
            i = i + 1;
        }
        if !has_best {
            proof {
                lemma_trace_never_self_intersects(points@, dist);
            }
            return TraceResult::Stuck(outline);
        }
        proof {
            lemma_best_prefix_props(
                remaining@,
                outline@,
                prev,
                start,
                dist,
                remaining@.len() as int,
            );
        }
        let c = remaining[best_idx];
        proof {
            assert(outline@.contains(start)) by {
                assert(outline@[outline@.len() - 1] == start);
            }
            assert(outline@.contains(first)) by {
                assert(outline@[0] == first);
            }
            lemma_in_bounds_slack(start);
            lemma_in_bounds_slack(first);
            lemma_in_bounds_slack(c);
        }
        if within_distance(first, c, dist) {
            let ra = turning_angle(start, c, first);
            if !angle_lt(best_ang, ra) {
                outline.push(c);
                proof {
                    lemma_trace_never_self_intersects(points@, dist);
                }
                return TraceResult::Closed(outline);
            }
        }
        prev = start;
        let ghost rem_before = remaining@;
        start = remaining.remove(best_idx);
        outline.push(start);
        proof {
            rem_before.remove_ensures(best_idx as int);
            assert forall|k: int| 0 <= k < remaining@.len()
                implies !outline@.contains(#[trigger] remaining@[k]) by {
                assert(remaining@[k] == rem_before[k] || remaining@[k] == rem_before[k + 1]);
                assert(rem_before.contains(remaining@[k])) by {
                    if remaining@[k] == rem_before[k] {
                    } else {
                        assert(rem_before[k + 1] == remaining@[k]);
                    }
                }
                assert(remaining@[k] != c);
                assert(!out0.contains(remaining@[k]));
                assert(outline@ =~= out0.push(c));
                if outline@.contains(remaining@[k]) {
                    let j = choose|j: int|
                        0 <= j < outline@.len() && outline@[j] == remaining@[k];
                    assert(j < out0.len() ==> out0[j] == remaining@[k]);
                    assert(false);
                }
            }
            assert(remaining@.no_duplicates()) by {
                assert forall|x: int, y: int|
                    0 <= x < remaining@.len() && 0 <= y < remaining@.len() && x != y
                    implies remaining@[x] != remaining@[y] by {
                    let x0 = if x < best_idx as int { x } else { x + 1 };
                    let y0 = if y < best_idx as int { y } else { y + 1 };
                    assert(remaining@[x] == rem_before[x0]);
                    assert(remaining@[y] == rem_before[y0]);
                }
            }
        }
    }
    proof {
        assert(spec_best_prefix(remaining@, outline@, prev, start, dist, 0) is None);
    }
    TraceResult::Stuck(outline)
}

/// The prepared input keeps exactly the input's values, has no duplicates,
/// and is empty exactly when the input is.
pub proof fn lemma_prepare_props(s: Seq<Point>)
    ensures
        forall|q: Point| #[trigger] spec_prepare(s).contains(q) == s.contains(q),
        spec_prepare(s).no_duplicates(),
        spec_prepare(s).len() == 0 <==> s.len() == 0,
        forall|k: int|
            0 <= k < spec_prepare(s).len() ==> s.contains(#[trigger] spec_prepare(s)[k]),
{
    lemma_dedup_no_duplicates(s);
    lemma_sort_by_x_props(crate::prepare::spec_dedup(s));
    assert forall|q: Point| #[trigger] spec_prepare(s).contains(q) == s.contains(q) by {
        lemma_dedup_contains(s, q);
    }
    if s.len() > 0 {
        assert(s.contains(s[0]));
        lemma_dedup_contains(s, s[0]);
        assert(crate::prepare::spec_dedup(s).len() > 0);
    }
    assert forall|k: int| 0 <= k < spec_prepare(s).len()
        implies s.contains(#[trigger] spec_prepare(s)[k]) by {
        assert(spec_prepare(s).contains(spec_prepare(s)[k]));
    }
}

/// The outline invariant: no two of the edges formed by consecutive
/// outline points intersect.  Adjacent edges share a vertex and so never
/// count as intersecting.
pub open spec fn spec_outline_ok(o: Seq<Point>) -> bool {
    forall|j: int, k: int|
        0 <= j < o.len() - 1 && 0 <= k < o.len() - 1 && j != k
            ==> !spec_segments_intersect(
            #[trigger] spec_outline_edge(o, j),
            #[trigger] spec_outline_edge(o, k),
        )
}

/// Appending an admissible candidate preserves the outline invariant: the
/// new edge was checked against every committed edge, and it cannot equal
/// one, since its start point, the outline's last, heads no committed edge.
proof fn lemma_outline_ok_push(outline: Seq<Point>, c: Point, d: i64)
    requires
        outline.len() >= 1,
        outline.no_duplicates(),
        !outline.contains(c),
        spec_outline_ok(outline),
        spec_admissible(outline.last(), c, outline, d),
    ensures
        spec_outline_ok(outline.push(c)),
{
    let o1 = outline.push(c);
    let e = Edge { start: outline.last(), end: c };
    let n = outline.len() as int;
    assert forall|j: int| 0 <= j < n - 1
        implies !spec_segments_intersect(spec_outline_edge(o1, j), e)
            && !spec_segments_intersect(e, spec_outline_edge(o1, j))
            && spec_outline_edge(o1, j) == spec_outline_edge(outline, j) by {
        assert(o1[j] == outline[j] && o1[j + 1] == outline[j + 1]);
        assert(spec_outline_edge(outline, j) != e) by {
            if spec_outline_edge(outline, j) == e {
                assert(outline[j] == outline[n - 1]);
                assert(false);
            }
        }
        assert(!spec_segments_intersect(e, spec_outline_edge(outline, j))) by {
            if spec_segments_intersect(e, spec_outline_edge(outline, j)) {
                assert(outline.len() > 1);
                assert(spec_edge_hits_outline(e, outline));
            }
        }
        lemma_segments_intersect_symmetric(e, spec_outline_edge(outline, j));
    }
    assert(spec_outline_edge(o1, n - 1) == e) by {
        assert(o1[n - 1] == outline.last() && o1[n] == c);
    }
    assert forall|j: int, k: int|
        0 <= j < o1.len() - 1 && 0 <= k < o1.len() - 1 && j != k
        implies !spec_segments_intersect(
        #[trigger] spec_outline_edge(o1, j),
        #[trigger] spec_outline_edge(o1, k),
    ) by {
        if j < n - 1 && k < n - 1 {
            assert(spec_outline_edge(o1, j) == spec_outline_edge(outline, j));
            assert(spec_outline_edge(o1, k) == spec_outline_edge(outline, k));
        }
    }
}

/// A sound outline for an input point set: it never crosses itself, visits
/// no point twice, every point it visits comes from the input, and it
/// begins at the first point of the prepared input.
pub open spec fn spec_outline_sound(o: Seq<Point>, points: Seq<Point>) -> bool {
    &&& spec_outline_ok(o)
    &&& o.no_duplicates()
    &&& o.len() >= 1
    &&& o[0] == spec_prepare(points)[0]
    &&& forall|p: Point| #[trigger] o.contains(p) ==> points.contains(p)
}

/// What stepping can make of an outline: it still never crosses itself,
/// visits no point twice, starts as the given outline started, and draws
/// every point from the outline so far or the remaining set.
pub open spec fn spec_outline_from(o: Seq<Point>, rem: Seq<Point>, outline: Seq<Point>) -> bool {
    &&& spec_outline_ok(o)
    &&& o.no_duplicates()
    &&& o.len() >= 1
    &&& o[0] == outline[0]
    &&& forall|p: Point| #[trigger] o.contains(p) ==> outline.contains(p) || rem.contains(p)
}

/// Every outline the trace can yield, closed or stuck, satisfies the
/// outline invariant: it never crosses itself.
proof fn lemma_trace_step_outline_ok(
    rem: Seq<Point>,
    outline: Seq<Point>,
    prev: Point,
    start: Point,
    first: Point,
    d: i64,
)
    requires
        outline.len() >= 1,
        outline.last() == start,
        outline.no_duplicates(),
        rem.no_duplicates(),
        forall|k: int| 0 <= k < rem.len() ==> !outline.contains(#[trigger] rem[k]),
        spec_outline_ok(outline),
    ensures
        match spec_trace_step(rem, outline, prev, start, first, d) {
            TraceModel::Closed(o) => spec_outline_from(o, rem, outline),
            TraceModel::Stuck(o) => spec_outline_from(o, rem, outline),
            _ => true,
        },
    decreases rem.len(),
{
    lemma_best_prefix_props(rem, outline, prev, start, d, rem.len() as int);
    match spec_best_prefix(rem, outline, prev, start, d, rem.len() as int) {
        None => {},
        Some((bi, bx, by)) => {
            let c = rem[bi];
            assert(rem.contains(c));
            lemma_outline_ok_push(outline, c, d);
            let o1 = outline.push(c);
            assert(o1.no_duplicates()) by {
                assert forall|x: int, y: int|
                    0 <= x < o1.len() && 0 <= y < o1.len() && x != y
                    implies o1[x] != o1[y] by {
                    if x == o1.len() - 1 {
                        assert(outline.contains(o1[y]));
                    } else if y == o1.len() - 1 {
                        assert(outline.contains(o1[x]));
                    }
                }
            }
            assert forall|p: Point| #[trigger] o1.contains(p)
                implies outline.contains(p) || rem.contains(p) by {
                let j = choose|j: int| 0 <= j < o1.len() && o1[j] == p;
                if j < outline.len() {
                    assert(outline[j] == p);
                } else {
                    assert(p == c);
                }
            }
            assert(o1[0] == outline[0]);
            if !(spec_within_distance(first, c, d) && !spec_angle_lt(
                bx,
                by,
                turn_x(start, c, first),
                turn_y(start, c, first),
            )) {
                let rem1 = rem.remove(bi);
                rem.remove_ensures(bi);
                assert(rem1.no_duplicates()) by {
                    assert forall|x: int, y: int|
                        0 <= x < rem1.len() && 0 <= y < rem1.len() && x != y
                        implies rem1[x] != rem1[y] by {
                        let x0 = if x < bi { x } else { x + 1 };
                        let y0 = if y < bi { y } else { y + 1 };
                        assert(rem1[x] == rem[x0]);
                        assert(rem1[y] == rem[y0]);
                    }
                }
                assert forall|k: int| 0 <= k < rem1.len()
                    implies !o1.contains(#[trigger] rem1[k]) by {
                    let k0 = if k < bi { k } else { k + 1 };
                    assert(rem1[k] == rem[k0]);
                    assert(!outline.contains(rem[k0]));
                    assert(rem[k0] != c);
                    if o1.contains(rem1[k]) {
                        let j = choose|j: int| 0 <= j < o1.len() && o1[j] == rem1[k];
                        assert(j < outline.len() ==> outline[j] == rem1[k]);
                        assert(false);
                    }
                }
                lemma_trace_step_outline_ok(rem1, o1, start, c, first, d);
                assert forall|p: Point| #[trigger] rem1.contains(p) implies rem.contains(p) by {
                    let k = choose|k: int| 0 <= k < rem1.len() && rem1[k] == p;
                    let k0 = if k < bi { k } else { k + 1 };
                    assert(rem1[k] == rem[k0]);
                }
            }
        },
    }
}

/// Whatever the tracer yields for a point set, closed or stuck, the
/// outline never crosses itself, visits no point twice, draws every point
/// from the input, and begins at the first prepared point.
pub proof fn lemma_trace_never_self_intersects(points: Seq<Point>, d: i64)
    ensures
        match spec_trace(points, d) {
            TraceModel::Closed(o) => spec_outline_sound(o, points),
            TraceModel::Stuck(o) => spec_outline_sound(o, points),
            _ => true,
        },
{
    lemma_prepare_props(points);
    let s = spec_prepare(points);
    if s.len() > 0 {
        let outline = seq![s[0]];
        let rem = s.drop_first();
        assert(outline.last() == s[0]);
        assert(outline.no_duplicates());
        assert(rem.no_duplicates()) by {
            assert forall|x: int, y: int|
                0 <= x < rem.len() && 0 <= y < rem.len() && x != y
                implies rem[x] != rem[y] by {
                assert(rem[x] == s[x + 1]);
                assert(rem[y] == s[y + 1]);
            }
        }
        assert forall|k: int| 0 <= k < rem.len()
            implies !outline.contains(#[trigger] rem[k]) by {
            assert(rem[k] == s[k + 1]);
            if outline.contains(rem[k]) {
                let j = choose|j: int| 0 <= j < outline.len() && outline[j] == rem[k];
                assert(j == 0);
                assert(false);
            }
        }
        lemma_trace_step_outline_ok(rem, outline, spec_below(s[0]), s[0], s[0], d);
        assert forall|p: Point| #[trigger] outline.contains(p) implies points.contains(p) by {
            let j = choose|j: int| 0 <= j < outline.len() && outline[j] == p;
            assert(p == s[0]);
            assert(s.contains(p));
        }
        assert forall|p: Point| #[trigger] rem.contains(p) implies points.contains(p) by {
            let k = choose|k: int| 0 <= k < rem.len() && rem[k] == p;
            assert(s[k + 1] == p);
            assert(s.contains(p));
        }
    }
}

/// Re-running the tracer on the same input always yields the identical
/// outcome: the trace is a function of its input, with no hidden
/// randomness.
pub proof fn lemma_trace_deterministic(
    points: Seq<Point>,
    d: i64,
    r1: TraceModel,
    r2: TraceModel,
)
    requires
        r1 == spec_trace(points, d),
        r2 == spec_trace(points, d),
    ensures
        r1 == r2,
{
}

} // verus!
