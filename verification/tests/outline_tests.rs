use outline_trace::angle::{angle_lt, turning_angle, Angle};
use outline_trace::geometry::{
    left_of_line, orientation_ccw, within_distance, within_distance_inclusive, Edge, Point,
};
use outline_trace::intersect::{edges_of_outline, segments_intersect, would_intersect_outline};
use outline_trace::pivot::trace_outline_pivot;
use outline_trace::prepare::{candidates_within, prepare_points};
use outline_trace::tracer::{trace_outline, TraceResult, DIST};

fn pt(x: i32, y: i32) -> Point {
    Point { x, y }
}

fn edge(ax: i32, ay: i32, bx: i32, by: i32) -> Edge {
    Edge { start: pt(ax, ay), end: pt(bx, by) }
}

#[test]
fn within_distance_exact_boundary() {
    // A 3-4-5 triangle: the distance is exactly 5.
    assert!(!within_distance(pt(0, 0), pt(3, 4), 5));
    assert!(within_distance(pt(0, 0), pt(3, 4), 6));
    assert!(within_distance_inclusive(pt(0, 0), pt(3, 4), 5));
    assert!(!within_distance_inclusive(pt(0, 0), pt(3, 4), 4));
}

#[test]
fn within_distance_same_point_non_positive() {
    assert!(!within_distance(pt(2, 3), pt(2, 3), 0));
    assert!(!within_distance(pt(2, 3), pt(2, 3), -1));
    assert!(within_distance(pt(2, 3), pt(2, 3), 1));
}

#[test]
fn inclusive_keeps_the_boundary_strict_drops_it() {
    assert!(within_distance_inclusive(pt(0, 0), pt(8, 0), 8));
    assert!(!within_distance(pt(0, 0), pt(8, 0), 8));
}

#[test]
fn orientation_ccw_turns() {
    assert!(orientation_ccw(pt(0, 0), pt(1, 0), pt(0, 1)));
    assert!(!orientation_ccw(pt(0, 0), pt(0, 1), pt(1, 0)));
}

#[test]
fn orientation_ccw_collinear_all_orderings() {
    let (a, b, c) = (pt(0, 0), pt(1, 1), pt(2, 2));
    assert!(!orientation_ccw(a, b, c));
    assert!(!orientation_ccw(b, c, a));
    assert!(!orientation_ccw(c, a, b));
    assert!(!orientation_ccw(a, c, b));
    assert!(!orientation_ccw(c, b, a));
    assert!(!orientation_ccw(b, a, c));
}

#[test]
fn left_of_line_sides() {
    assert!(left_of_line(pt(0, 0), pt(1, 0), pt(0, 1)));
    assert!(!left_of_line(pt(0, 0), pt(1, 0), pt(0, -1)));
    assert!(!left_of_line(pt(0, 0), pt(1, 0), pt(5, 0)));
}

#[test]
fn segments_cross_at_interior_integer_point() {
    assert!(segments_intersect(edge(0, 0, 2, 2), edge(0, 2, 2, 0)));
}

#[test]
fn segments_cross_at_non_integer_point() {
    // The crossing is at (1/2, 1/2): a genuine crossing.
    assert!(segments_intersect(edge(0, 0, 1, 1), edge(0, 1, 1, 0)));
}

#[test]
fn segments_sharing_an_endpoint_do_not_intersect() {
    assert!(!segments_intersect(edge(0, 0, 2, 2), edge(0, 0, 2, -2)));
    assert!(!segments_intersect(edge(0, 0, 2, 2), edge(2, 2, 4, 0)));
}

#[test]
fn segments_intersect_is_symmetric() {
    let pairs = [
        (edge(0, 0, 2, 2), edge(0, 2, 2, 0)),
        (edge(0, 0, 1, 1), edge(0, 1, 1, 0)),
        (edge(0, 0, 2, 2), edge(0, 0, 2, -2)),
        (edge(0, 0, 4, 0), edge(0, 1, 4, 1)),
    ];
    for (e, f) in pairs {
        assert_eq!(segments_intersect(e, f), segments_intersect(f, e));
    }
}

#[test]
fn parallel_and_collinear_segments_do_not_intersect() {
    assert!(!segments_intersect(edge(0, 0, 4, 0), edge(0, 1, 4, 1)));
    assert!(!segments_intersect(edge(0, 0, 4, 0), edge(2, 0, 6, 0)));
}

#[test]
fn grazing_an_endpoint_does_not_intersect() {
    // The second segment's endpoint (1, 0) lies on the first segment.
    assert!(!segments_intersect(edge(0, 0, 2, 0), edge(1, 0, 1, 5)));
}

#[test]
fn turning_angle_comparisons() {
    // At (0, 0), coming from (0, 1): a quarter clockwise turn to (1, 0) is
    // sharper than the half turn straight on to (0, -1), which is sharper
    // than the three-quarter turn to (-1, 0).
    let quarter = turning_angle(pt(0, 1), pt(0, 0), pt(1, 0));
    let half = turning_angle(pt(0, 1), pt(0, 0), pt(0, -1));
    let three_quarters = turning_angle(pt(0, 1), pt(0, 0), pt(-1, 0));
    assert!(angle_lt(quarter, half));
    assert!(angle_lt(half, three_quarters));
    assert!(angle_lt(quarter, three_quarters));
    assert!(!angle_lt(half, quarter));
}

#[test]
fn exact_reversal_is_the_full_turn() {
    let full = turning_angle(pt(0, 1), pt(0, 0), pt(0, 1));
    let quarter = turning_angle(pt(0, 1), pt(0, 0), pt(1, 0));
    assert!(angle_lt(quarter, full));
    assert!(!angle_lt(full, quarter));
    assert!(!angle_lt(full, Angle { x: 1, y: 0 }));
}

#[test]
fn candidate_filter_is_inclusive_and_keeps_order() {
    let points = vec![pt(8, 0), pt(0, 9), pt(3, 3), pt(-5, -5)];
    let cands = candidates_within(pt(0, 0), 8, &points);
    assert_eq!(cands, vec![pt(8, 0), pt(3, 3), pt(-5, -5)]);
}

#[test]
fn prepare_dedups_and_sorts_stably() {
    let points = vec![pt(5, 1), pt(0, 2), pt(5, 0), pt(0, 2), pt(-3, 7)];
    let prepared = prepare_points(&points);
    assert_eq!(prepared, vec![pt(-3, 7), pt(0, 2), pt(5, 1), pt(5, 0)]);
}

#[test]
fn edges_of_outline_pairs_consecutive_points() {
    let outline = vec![pt(0, 0), pt(4, 0), pt(4, 4)];
    let edges = edges_of_outline(&outline);
    assert_eq!(edges, vec![edge(0, 0, 4, 0), edge(4, 0, 4, 4)]);
}

#[test]
fn guard_sees_a_crossing_and_ignores_shared_vertices() {
    let outline = vec![pt(0, 0), pt(4, 0), pt(4, 4)];
    assert!(would_intersect_outline(edge(2, 2, 2, -2), &outline));
    assert!(!would_intersect_outline(edge(0, 0, 4, 4), &outline));
}

#[test]
fn square_traces_to_a_closed_outline() {
    let points = vec![pt(0, 0), pt(5, 0), pt(5, 5), pt(0, 5)];
    match trace_outline(&points, DIST) {
        TraceResult::Closed(outline) => {
            assert_eq!(outline.len(), 4);
            for p in [pt(0, 0), pt(5, 0), pt(5, 5), pt(0, 5)] {
                assert!(outline.contains(&p));
            }
            assert_eq!(outline, vec![pt(0, 0), pt(0, 5), pt(5, 5), pt(5, 0)]);
        },
        _ => panic!("expected a closed outline"),
    }
}

#[test]
fn two_far_points_get_stuck_at_the_start() {
    let points = vec![pt(0, 0), pt(20, 0)];
    match trace_outline(&points, DIST) {
        TraceResult::Stuck(outline) => assert_eq!(outline, vec![pt(0, 0)]),
        _ => panic!("expected a stuck outline"),
    }
}

#[test]
fn empty_input_is_degenerate() {
    let points: Vec<Point> = Vec::new();
    assert!(matches!(trace_outline(&points, DIST), TraceResult::DegenerateInput));
}

#[test]
fn tracing_twice_yields_the_identical_outline() {
    let points = vec![pt(0, 0), pt(5, 0), pt(5, 5), pt(0, 5), pt(3, 2)];
    let first = match trace_outline(&points, DIST) {
        TraceResult::Closed(v) => v,
        TraceResult::Stuck(v) => v,
        _ => panic!("expected an outline"),
    };
    let second = match trace_outline(&points, DIST) {
        TraceResult::Closed(v) => v,
        TraceResult::Stuck(v) => v,
        _ => panic!("expected an outline"),
    };
    assert_eq!(first, second);
}

#[test]
fn duplicates_collapse_before_tracing() {
    let with_dups = vec![pt(0, 0), pt(0, 0), pt(3, 0)];
    let without = vec![pt(0, 0), pt(3, 0)];
    let a = match trace_outline(&with_dups, DIST) {
        TraceResult::Stuck(v) => v,
        _ => panic!("expected a stuck outline"),
    };
    let b = match trace_outline(&without, DIST) {
        TraceResult::Stuck(v) => v,
        _ => panic!("expected a stuck outline"),
    };
    assert_eq!(a, vec![pt(0, 0), pt(3, 0)]);
    assert_eq!(a, b);
}

#[test]
fn pivot_square_traces_to_a_closed_outline() {
    let points = vec![pt(0, 0), pt(5, 0), pt(5, 5), pt(0, 5)];
    match trace_outline_pivot(&points, DIST) {
        TraceResult::Closed(outline) => {
            assert_eq!(outline, vec![pt(0, 0), pt(0, 5), pt(5, 5), pt(5, 0)]);
        },
        _ => panic!("expected a closed outline"),
    }
}

#[test]
fn pivot_empty_input_is_degenerate() {
    let points: Vec<Point> = Vec::new();
    assert!(matches!(trace_outline_pivot(&points, DIST), TraceResult::DegenerateInput));
}

#[test]
fn pivot_single_point_closes_on_itself() {
    let points = vec![pt(7, 7)];
    match trace_outline_pivot(&points, DIST) {
        TraceResult::Closed(outline) => assert_eq!(outline, vec![pt(7, 7)]),
        _ => panic!("expected a closed outline"),
    }
}

#[test]
fn pivot_long_chain_exceeds_the_iteration_budget() {
    let mut points = Vec::new();
    let mut x: i32 = 0;
    while x < 250 {
        points.push(pt(x, 0));
        x += 1;
    }
    match trace_outline_pivot(&points, DIST) {
        TraceResult::IterationBudgetExceeded(outline) => {
            assert_eq!(outline.len(), 201);
            assert_eq!(outline[0], pt(0, 0));
        },
        _ => panic!("expected the iteration budget to be exceeded"),
    }
}
