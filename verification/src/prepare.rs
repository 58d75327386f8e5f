//! Point-set preparation and the candidate filter.
//!
//! Before tracing, the input point set is deduplicated (first occurrences
//! kept) and stably sorted by x-coordinate, so equal x-coordinates keep
//! their input order and the whole preparation is deterministic.  The
//! candidate filter returns the points of a set within an inclusive radius
//! of a centre, in the order encountered.

use vstd::prelude::*;
use crate::geometry::{Point, spec_within_distance_inclusive, within_distance_inclusive};

verus! {

/// The subsequence of `s` that keeps exactly the first occurrence of every
/// value, in order of first appearance.
pub open spec fn spec_dedup(s: Seq<Point>) -> Seq<Point>
    decreases s.len(),
{
    if s.len() == 0 {
        Seq::empty()
    } else {
        let pre = spec_dedup(s.drop_last());
        if s.drop_last().contains(s.last()) {
            pre
        } else {
            pre.push(s.last())
        }
    }
}

/// `p` inserted into `s` directly before the first element with a strictly
/// larger x-coordinate (after all elements with an equal one, which keeps
/// the insertion stable).
pub open spec fn spec_insert_by_x(p: Point, s: Seq<Point>) -> Seq<Point>
    decreases s.len(),
{
    if s.len() == 0 {
        seq![p]
    } else if p.x < s[0].x {
        seq![p] + s
    } else {
        seq![s[0]] + spec_insert_by_x(p, s.drop_first())
    }
}

/// Stable insertion sort of `s` by x-coordinate.
pub open spec fn spec_sort_by_x(s: Seq<Point>) -> Seq<Point>
    decreases s.len(),
{
    if s.len() == 0 {
        Seq::empty()
    } else {
        spec_insert_by_x(s.last(), spec_sort_by_x(s.drop_last()))
    }
}

/// The tracer's working order: duplicates dropped (first occurrences kept),
/// then stably sorted by x-coordinate.
pub open spec fn spec_prepare(s: Seq<Point>) -> Seq<Point> {
    spec_sort_by_x(spec_dedup(s))
}

/// Deduplication keeps exactly the values of the input.
pub proof fn lemma_dedup_contains(s: Seq<Point>, p: Point)
    ensures
        spec_dedup(s).contains(p) == s.contains(p),
    decreases s.len(),
{
    broadcast use vstd::seq_lib::group_seq_properties;

    if s.len() == 0 {
    } else {
        let pre = s.drop_last();
        lemma_dedup_contains(pre, p);
        assert(s =~= pre.push(s.last()));
        if pre.contains(s.last()) {
            lemma_dedup_contains(pre, s.last());
        }
    }
}

/// Deduplication leaves no duplicates.
pub proof fn lemma_dedup_no_duplicates(s: Seq<Point>)
    ensures
        spec_dedup(s).no_duplicates(),
    decreases s.len(),
{
    broadcast use vstd::seq_lib::group_seq_properties;

    if s.len() == 0 {
    } else {
        let pre = s.drop_last();
        lemma_dedup_no_duplicates(pre);
        if !pre.contains(s.last()) {
            lemma_dedup_contains(pre, s.last());
            let d = spec_dedup(pre);
            assert forall|i: int, j: int|
                0 <= i < d.push(s.last()).len() && 0 <= j < d.push(s.last()).len() && i != j
                implies d.push(s.last())[i] != d.push(s.last())[j] by {
                if i < d.len() && j < d.len() {
                } else if i == d.len() {
                    assert(d.contains(d[j]));
                } else if j == d.len() {
                    assert(d.contains(d[i]));
                }
            }
        }
    }
}

/// What insertion does: one element longer, the values are the old ones
/// plus the new one, and inserting a fresh value keeps the sequence free of
/// duplicates.
pub proof fn lemma_insert_by_x_props(p: Point, s: Seq<Point>)
    ensures
        spec_insert_by_x(p, s).len() == s.len() + 1,
        forall|q: Point|
            #[trigger] spec_insert_by_x(p, s).contains(q) == (q == p || s.contains(q)),
        s.no_duplicates() && !s.contains(p) ==> spec_insert_by_x(p, s).no_duplicates(),
    decreases s.len(),
{
    broadcast use vstd::seq_lib::group_seq_properties;

    if s.len() == 0 {
        assert(spec_insert_by_x(p, s) =~= Seq::empty().push(p));
    } else if p.x < s[0].x {
        assert(spec_insert_by_x(p, s) =~= seq![p] + s);
        assert forall|q: Point|
            #[trigger] spec_insert_by_x(p, s).contains(q) == (q == p || s.contains(q)) by {
            assert((seq![p] + s).contains(q) == (seq![p].contains(q) || s.contains(q)));
            assert(seq![p].contains(q) == (q == p));
        }
        if s.no_duplicates() && !s.contains(p) {
            let t = seq![p] + s;
            assert forall|i: int, j: int|
                0 <= i < t.len() && 0 <= j < t.len() && i != j implies t[i] != t[j] by {
                if i == 0 {
                    assert(s.contains(t[j]));
                } else if j == 0 {
                    assert(s.contains(t[i]));
                }
            }
        }
    } else {
        let rest = s.drop_first();
        lemma_insert_by_x_props(p, rest);
        assert(s =~= seq![s[0]] + rest);
        let t = seq![s[0]] + spec_insert_by_x(p, rest);
        assert(spec_insert_by_x(p, s) == t);
        assert forall|q: Point|
            #[trigger] t.contains(q) == (q == p || s.contains(q)) by {
            assert(t.contains(q) == (seq![s[0]].contains(q) || spec_insert_by_x(p, rest).contains(
                q,
            )));
            assert(seq![s[0]].contains(q) == (q == s[0]));
            assert(s.contains(q) == (q == s[0] || rest.contains(q)));
        }
        if s.no_duplicates() && !s.contains(p) {
            assert(!rest.contains(p)) by {
                assert(s.contains(p) == (p == s[0] || rest.contains(p)));
            }
            assert(rest.no_duplicates());
            let u = spec_insert_by_x(p, rest);
            assert(!u.contains(s[0])) by {
                assert(s.contains(s[0]));
                if rest.contains(s[0]) {
                    let i = choose|i: int| 0 <= i < rest.len() && rest[i] == s[0];
                    assert(s[i + 1] == s[0]);
                    assert(false);
                }
            }
            assert forall|i: int, j: int|
                0 <= i < t.len() && 0 <= j < t.len() && i != j implies t[i] != t[j] by {
                if i == 0 && j != 0 {
                    assert(u.contains(t[j]));
                } else if j == 0 && i != 0 {
                    assert(u.contains(t[i]));
                }
            }
        }
    }
}

/// Sorting permutes the values: same length, same membership, and no
/// duplicates are introduced.
pub proof fn lemma_sort_by_x_props(s: Seq<Point>)
    ensures
        spec_sort_by_x(s).len() == s.len(),
        forall|q: Point| #[trigger] spec_sort_by_x(s).contains(q) == s.contains(q),
        s.no_duplicates() ==> spec_sort_by_x(s).no_duplicates(),
    decreases s.len(),
{
    broadcast use vstd::seq_lib::group_seq_properties;

    if s.len() == 0 {
    } else {
        let pre = s.drop_last();
        lemma_sort_by_x_props(pre);
        lemma_insert_by_x_props(s.last(), spec_sort_by_x(pre));
        assert(s =~= pre.push(s.last()));
        assert forall|q: Point| #[trigger] spec_sort_by_x(s).contains(q) == s.contains(q) by {
            assert(spec_sort_by_x(s).contains(q) == (q == s.last() || spec_sort_by_x(
                pre,
            ).contains(q)));
        }
        if s.no_duplicates() {
            assert(pre.no_duplicates());
            assert(!pre.contains(s.last())) by {
                if pre.contains(s.last()) {
                    let i = choose|i: int| 0 <= i < pre.len() && pre[i] == s.last();
                    assert(s[i] == s[s.len() - 1]);
                    assert(false);
                }
            }
        }
    }
}

/// A sequence is ordered by x-coordinate.
pub open spec fn spec_sorted_by_x(s: Seq<Point>) -> bool {
    forall|i: int, j: int| 0 <= i < j < s.len() ==> s[i].x <= s[j].x
}

/// Insertion keeps the order by x-coordinate.
pub proof fn lemma_insert_by_x_sorted(p: Point, s: Seq<Point>)
    requires
        spec_sorted_by_x(s),
    ensures
        spec_sorted_by_x(spec_insert_by_x(p, s)),
    decreases s.len(),
{
    broadcast use vstd::seq_lib::group_seq_properties;

    if s.len() == 0 {
    } else if p.x < s[0].x {
        let t = seq![p] + s;
        assert forall|i: int, j: int| 0 <= i < j < t.len() implies t[i].x <= t[j].x by {
            if i == 0 {
                assert(t[j] == s[j - 1]);
                assert(s[0].x <= s[j - 1].x);
            }
        }
    } else {
        let rest = s.drop_first();
        lemma_insert_by_x_sorted(p, rest);
        lemma_insert_by_x_props(p, rest);
        let u = spec_insert_by_x(p, rest);
        let t = seq![s[0]] + u;
        assert forall|i: int, j: int| 0 <= i < j < t.len() implies t[i].x <= t[j].x by {
            if i == 0 {
                assert(t[j] == u[j - 1]);
                assert(u.contains(u[j - 1]));
                if u[j - 1] == p {
                } else {
                    let k = choose|k: int| 0 <= k < rest.len() && rest[k] == u[j - 1];
                    assert(s[k + 1] == u[j - 1]);
                }
            } else {
                assert(t[i] == u[i - 1] && t[j] == u[j - 1]);
            }
        }
    }
}

/// Sorting orders the sequence by x-coordinate.
pub proof fn lemma_sort_by_x_sorted(s: Seq<Point>)
    ensures
        spec_sorted_by_x(spec_sort_by_x(s)),
    decreases s.len(),
{
    if s.len() > 0 {
        lemma_sort_by_x_sorted(s.drop_last());
        lemma_insert_by_x_sorted(s.last(), spec_sort_by_x(s.drop_last()));
    }
}

/// The prepared input is ordered by x-coordinate; in particular its first
/// point has a smallest x-coordinate.
pub proof fn lemma_prepare_sorted(s: Seq<Point>)
    ensures
        spec_sorted_by_x(spec_prepare(s)),
{
    lemma_sort_by_x_sorted(spec_dedup(s));
}

/// Inserting at the first position whose element has a strictly larger
/// x-coordinate realizes `spec_insert_by_x`.
pub proof fn lemma_insert_by_x_at(p: Point, s: Seq<Point>, j: int)
    requires
        0 <= j <= s.len(),
        forall|k: int| 0 <= k < j ==> #[trigger] s[k].x <= p.x,
        j < s.len() ==> p.x < s[j].x,
    ensures
        spec_insert_by_x(p, s) == s.insert(j, p),
    decreases s.len(),
{
    broadcast use vstd::seq_lib::group_seq_properties;

    if s.len() == 0 {
        assert(spec_insert_by_x(p, s) =~= s.insert(0, p));
    } else if j == 0 {
        assert(p.x < s[0].x);
        assert(spec_insert_by_x(p, s) =~= s.insert(0, p));
    } else {
        assert(s[0].x <= p.x);
        let rest = s.drop_first();
        lemma_insert_by_x_at(p, rest, j - 1);
        assert(seq![s[0]] + rest.insert(j - 1, p) =~= s.insert(j, p));
    }
}

/// Whether a vector of points contains the given point.
pub fn vec_contains(v: &Vec<Point>, p: Point) -> (r: bool)
    ensures
        r == v@.contains(p),
{
    let mut i: usize = 0;
    while i < v.len()
        invariant
            0 <= i <= v@.len(),
            forall|k: int| 0 <= k < i ==> v@[k] != p,
        decreases v@.len() - i,
    {
        if v[i] == p {
            return true;
        }
        i = i + 1;
    }
    false
}

/// Drops every repeated point, keeping the first occurrence of each value
/// in input order.
pub fn dedup_points(points: &Vec<Point>) -> (r: Vec<Point>)
    ensures
        r@ == spec_dedup(points@),
{
    let mut r: Vec<Point> = Vec::new();
    let mut i: usize = 0;
    while i < points.len()
        invariant
            0 <= i <= points@.len(),
            r@ == spec_dedup(points@.take(i as int)),
        decreases points@.len() - i,
    {
        let p = points[i];
        proof {
            lemma_dedup_contains(points@.take(i as int), p);
            assert(points@.take(i as int + 1).drop_last() =~= points@.take(i as int));
            assert(points@.take(i as int + 1).last() == p);
        }
        if !vec_contains(&r, p) {
            r.push(p);
        }
        i = i + 1;
    }
    assert(points@.take(points@.len() as int) =~= points@);
    r
}

/// Stable insertion sort by x-coordinate: equal x-coordinates keep their
/// input order.
pub fn sort_points_by_x(points: &Vec<Point>) -> (r: Vec<Point>)
    ensures
        r@ == spec_sort_by_x(points@),
{
    let mut r: Vec<Point> = Vec::new();
    let mut i: usize = 0;
    while i < points.len()
        invariant
            0 <= i <= points@.len(),
            r@ == spec_sort_by_x(points@.take(i as int)),
        decreases points@.len() - i,
    {
        let p = points[i];
        let mut j: usize = 0;
        while j < r.len() && r[j].x <= p.x
            invariant
                0 <= j <= r@.len(),
                forall|k: int| 0 <= k < j ==> #[trigger] r@[k].x <= p.x,
            decreases r@.len() - j,
        {
            j = j + 1;
        }
        proof {
            lemma_insert_by_x_at(p, r@, j as int);
            assert(points@.take(i as int + 1).drop_last() =~= points@.take(i as int));
            assert(points@.take(i as int + 1).last() == p);
        }
        r.insert(j, p);
        i = i + 1;
    }
    assert(points@.take(points@.len() as int) =~= points@);
    r
}

/// Deduplicate, then stably sort by x-coordinate: the deterministic working
/// order the tracer starts from.
pub fn prepare_points(points: &Vec<Point>) -> (r: Vec<Point>)
    ensures
        r@ == spec_prepare(points@),
{
    let d = dedup_points(points);
    sort_points_by_x(&d)
}

/// The points of `s` within the inclusive radius `d` of the centre `c`, in
/// the order encountered.
pub open spec fn spec_candidates(c: Point, d: i64, s: Seq<Point>) -> Seq<Point>
    decreases s.len(),
{
    if s.len() == 0 {
        Seq::empty()
    } else {
        let pre = spec_candidates(c, d, s.drop_last());
        if spec_within_distance_inclusive(c, s.last(), d) {
            pre.push(s.last())
        } else {
            pre
        }
    }
}

/// Candidate filter: every point of `points` whose squared distance to
/// `current` is at most `radius * radius`, in the order encountered.
pub fn candidates_within(current: Point, radius: i64, points: &Vec<Point>) -> (r: Vec<Point>)
    ensures
        r@ == spec_candidates(current, radius, points@),
{
    let mut r: Vec<Point> = Vec::new();
    let mut i: usize = 0;
    while i < points.len()
        invariant
            0 <= i <= points@.len(),
            r@ == spec_candidates(current, radius, points@.take(i as int)),
        decreases points@.len() - i,
    {
        let p = points[i];
        proof {
            assert(points@.take(i as int + 1).drop_last() =~= points@.take(i as int));
            assert(points@.take(i as int + 1).last() == p);
        }
        if within_distance_inclusive(current, p, radius) {
            r.push(p);
        }
        i = i + 1;
    }
    assert(points@.take(points@.len() as int) =~= points@);
    r
}

} // verus!
