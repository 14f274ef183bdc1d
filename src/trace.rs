//! The circle/polygon boundary tracer: a state machine over the polygon's
//! edges that switches between following the polygon and following the
//! circle at each crossing, and splices circular arcs into the boundary.
//!
//! The tracer is generic in the point type `P`: the caller computes, for each
//! edge, the crossings with the circle and whether the endpoints lie inside,
//! and samples the arcs that the tracer asks for.

use vstd::prelude::*;

verus! {

/// What the circle/line intersector reports for one polygon edge.
#[derive(Debug)]
pub struct EdgeCrossing<P> {
    /// The crossing nearer the edge's start, if any.
    pub entry: Option<P>,
    /// The crossing nearer the edge's end, if any.
    pub exit: Option<P>,
    pub start_inside: bool,
    pub end_inside: bool,
    /// The edge's terminal vertex.
    pub end: P,
    /// `entry` coincides with `end` (within tolerance).
    pub entry_at_end: bool,
    /// `exit` coincides with `end` (within tolerance).
    pub exit_at_end: bool,
}

/// One piece of the traced boundary.
#[derive(Debug, PartialEq)]
pub enum TraceItem<P> {
    /// A point of the boundary.
    Point(P),
    /// The circular arc from the first point to the second, counter-clockwise;
    /// the caller samples its interior points.
    Arc(P, P),
}

impl<P: Copy> EdgeCrossing<P> {
    /// The report for one edge. An edge with both endpoints inside the
    /// circle has no boundary-relevant crossing: its crossings are dropped.
    pub fn new(
        entry: Option<P>,
        exit: Option<P>,
        start_inside: bool,
        end_inside: bool,
        end: P,
        entry_at_end: bool,
        exit_at_end: bool,
    ) -> (r: EdgeCrossing<P>)
        ensures
            filtered(r),
            r.start_inside == start_inside,
            r.end_inside == end_inside,
            r.end == end,
            r.entry_at_end == entry_at_end,
            r.exit_at_end == exit_at_end,
            !(start_inside && end_inside) ==> r.entry == entry && r.exit == exit,
    {
        if start_inside && end_inside {
            EdgeCrossing {
                entry: None,
                exit: None,
                start_inside,
                end_inside,
                end,
                entry_at_end,
                exit_at_end,
            }
        } else {
            EdgeCrossing { entry, exit, start_inside, end_inside, end, entry_at_end, exit_at_end }
        }
    }
}

/// The tracer reached an edge with a crossing although both of its endpoints
/// lie inside the circle; the circle/line intersector never reports that.
#[derive(Debug, Clone, Copy, PartialEq, Eq, Structural)]
pub enum TraceError {
    BothEndpointsInside,
}

/// The tracer's state between edges.
#[derive(Debug)]
pub struct TraceState<P> {
    /// Following the polygon's edges (else the circle's boundary).
    pub following_polygon: bool,
    /// Where the current stretch along the circle began.
    pub circle_start: Option<P>,
    /// The first edge that crossed the circle.
    pub first_edge: Option<usize>,
    /// The walk is back at the first crossing edge.
    pub circled_back: bool,
}

/// Whether the boundary follows the polygon after a crossing, by the
/// endpoints' positions, the operation and which of the edge's two crossings
/// it is; `None` when both endpoints are inside.
pub open spec fn follow_after(
    start_inside: bool,
    end_inside: bool,
    is_intersection: bool,
    is_second: bool,
) -> Option<bool> {
    match (start_inside, end_inside) {
        (false, false) => Some(
            if is_second {
                !is_intersection
            } else {
                is_intersection
            },
        ),
        (true, false) => Some(!is_intersection),
        (false, true) => Some(is_intersection),
        (true, true) => None,
    }
}

/// The decision table of the tracer (see `follow_after`).
pub fn follows_polygon(start_inside: bool, end_inside: bool, is_intersection: bool, is_second: bool) -> (r:
    Result<bool, TraceError>)
    ensures
        r is Err <==> follow_after(start_inside, end_inside, is_intersection, is_second) is None,
        r matches Ok(f) ==> follow_after(start_inside, end_inside, is_intersection, is_second)
            == Some(f),
{
    match (start_inside, end_inside) {
        (false, false) => {
            if is_second {
                Ok(!is_intersection)
            } else {
                Ok(is_intersection)
            }
        },
        (true, false) => Ok(!is_intersection),
        (false, true) => Ok(is_intersection),
        (true, true) => Err(TraceError::BothEndpointsInside),
    }
}

/// One crossing `ix`, after which the boundary follows the polygon when
/// `now` holds. Entering the polygon closes the arc begun at the remembered
/// circle point; leaving it remembers `ix` as the new arc start. The crossing
/// is kept while leaving the polygon, and while following it unless it
/// coincides with the edge's end (which is added as a vertex).
pub open spec fn point_step<P>(
    st: TraceState<P>,
    out: Seq<TraceItem<P>>,
    ix: P,
    at_end: bool,
    now: bool,
) -> (TraceState<P>, Seq<TraceItem<P>>) {
    let was = st.following_polygon;
    let out1 = if !was && now {
        match st.circle_start {
            Some(c) => out.push(TraceItem::Arc(c, ix)),
            None => out,
        }
    } else {
        out
    };
    let start1 = if !was && now {
        None
    } else if was && !now {
        Some(ix)
    } else {
        st.circle_start
    };
    let out2 = if (now && !at_end) || (was && !now) {
        out1.push(TraceItem::Point(ix))
    } else {
        out1
    };
    (TraceState { following_polygon: now, circle_start: start1, ..st }, out2)
}

/// A crossing with its decision; `None` when the decision table refuses it.
pub open spec fn crossing_step<P>(
    st: TraceState<P>,
    out: Seq<TraceItem<P>>,
    e: EdgeCrossing<P>,
    ix: P,
    at_end: bool,
    is_intersection: bool,
    is_second: bool,
) -> Option<(TraceState<P>, Seq<TraceItem<P>>)> {
    match follow_after(e.start_inside, e.end_inside, is_intersection, is_second) {
        Some(now) => Some(point_step(st, out, ix, at_end, now)),
        None => None,
    }
}

/// The first crossing edge starts the walk along the polygon.
pub open spec fn mark_first<P>(st: TraceState<P>, idx: usize) -> TraceState<P> {
    if st.first_edge is None {
        TraceState { first_edge: Some(idx), following_polygon: true, ..st }
    } else {
        st
    }
}

/// The crossings of one edge, in order along the edge.
pub open spec fn crossings_step<P>(
    st: TraceState<P>,
    out: Seq<TraceItem<P>>,
    e: EdgeCrossing<P>,
    idx: usize,
    is_intersection: bool,
) -> Option<(TraceState<P>, Seq<TraceItem<P>>)> {
    match (e.entry, e.exit) {
        (None, None) => Some((st, out)),
        (Some(a), Some(b)) => match crossing_step(
            mark_first(st, idx),
            out,
            e,
            a,
            e.entry_at_end,
            is_intersection,
            false,
        ) {
            Some((st1, out1)) => crossing_step(st1, out1, e, b, e.exit_at_end, is_intersection, true),
            None => None,
        },
        (Some(a), None) => crossing_step(
            mark_first(st, idx),
            out,
            e,
            a,
            e.entry_at_end,
            is_intersection,
            false,
        ),
        (None, Some(b)) => crossing_step(
            mark_first(st, idx),
            out,
            e,
            b,
            e.exit_at_end,
            is_intersection,
            false,
        ),
    }
}

/// One edge of the walk: note a return to the first crossing edge, handle the
/// edge's crossings, then add its end vertex while following the polygon
/// (except on the closing edge).
pub open spec fn edge_step<P>(
    st: TraceState<P>,
    out: Seq<TraceItem<P>>,
    e: EdgeCrossing<P>,
    idx: usize,
    is_intersection: bool,
) -> Option<(TraceState<P>, Seq<TraceItem<P>>)> {
    let st0 = if st.first_edge == Some(idx) {
        TraceState { circled_back: true, ..st }
    } else {
        st
    };
    match crossings_step(st0, out, e, idx, is_intersection) {
        Some((st1, out1)) => Some(
            (
                st1,
                if st1.following_polygon && !st1.circled_back {
                    out1.push(TraceItem::Point(e.end))
                } else {
                    out1
                },
            ),
        ),
        None => None,
    }
}

/// The walk from step `i` on: up to twice around the polygon, ending once
/// it is back at the first crossing edge.
pub open spec fn walk<P>(
    edges: Seq<EdgeCrossing<P>>,
    is_intersection: bool,
    st: TraceState<P>,
    out: Seq<TraceItem<P>>,
    i: int,
) -> Option<Seq<TraceItem<P>>>
    decreases 2 * edges.len() - i,
{
    if i >= 2 * edges.len() || st.circled_back || edges.len() == 0 {
        Some(out)
    } else {
        let idx = (i % edges.len() as int) as usize;
        match edge_step(st, out, edges[idx as int], idx, is_intersection) {
            Some((st1, out1)) => walk(edges, is_intersection, st1, out1, i + 1),
            None => None,
        }
    }
}

/// The state before the first edge.
pub open spec fn initial_state<P>() -> TraceState<P> {
    TraceState {
        following_polygon: false,
        circle_start: None,
        first_edge: None,
        circled_back: false,
    }
}

fn process_crossing<P: Copy>(
    st: &mut TraceState<P>,
    out: &mut Vec<TraceItem<P>>,
    e: &EdgeCrossing<P>,
    ix: P,
    at_end: bool,
    is_intersection: bool,
    is_second: bool,
) -> (r: Result<(), TraceError>)
    ensures
        r is Err <==> crossing_step(*old(st), old(out)@, *e, ix, at_end, is_intersection, is_second) is None,
        r is Ok ==> crossing_step(*old(st), old(out)@, *e, ix, at_end, is_intersection, is_second)
            == Some((*final(st), final(out)@)),
{
    let now = match follows_polygon(e.start_inside, e.end_inside, is_intersection, is_second) {
        Ok(f) => f,
        Err(err) => {
            return Err(err);
        },
    };
    let was = st.following_polygon;
    if !was && now {
        if let Some(c) = st.circle_start {
            out.push(TraceItem::Arc(c, ix));
        }
        st.circle_start = None;
    } else if was && !now {
        st.circle_start = Some(ix);
    }
    if (now && !at_end) || (was && !now) {
        out.push(TraceItem::Point(ix));
    }
    st.following_polygon = now;
    Ok(())
}

fn mark_first_edge<P: Copy>(st: &mut TraceState<P>, idx: usize)
    ensures
        *final(st) == mark_first(*old(st), idx),
{
    if st.first_edge.is_none() {
        st.first_edge = Some(idx);
        st.following_polygon = true;
    }
}

/// Walks the polygon's edges (taken as a cycle) and returns the boundary of
/// the intersection (`is_intersection`) or the union of the circle and the
/// polygon, as points and arcs in order; empty when no edge crosses the
/// circle.
pub fn trace_boundary<P: Copy>(edges: &Vec<EdgeCrossing<P>>, is_intersection: bool) -> (r: Result<
    Vec<TraceItem<P>>,
    TraceError,
>)
    requires
        edges@.len() <= usize::MAX / 2,
    ensures
        r is Err <==> walk(edges@, is_intersection, initial_state(), seq![], 0) is None,
        r matches Ok(v) ==> walk(edges@, is_intersection, initial_state(), seq![], 0) == Some(v@),
{
    let mut out: Vec<TraceItem<P>> = Vec::new();
    let mut st: TraceState<P> = TraceState {
        following_polygon: false,
        circle_start: None,
        first_edge: None,
        circled_back: false,
    };
    let n = edges.len();
    if n == 0 {
        assert(out@ =~= seq![]);
        return Ok(out);
    }
    let max_iterations = n * 2;
    let mut i: usize = 0;
    while i < max_iterations
        invariant
            n == edges@.len(),
            n > 0,
            max_iterations == 2 * n,
            i <= max_iterations,
            walk(edges@, is_intersection, initial_state(), seq![], 0) == walk(
                edges@,
                is_intersection,
                st,
                out@,
                i as int,
            ),
        ensures
            walk(edges@, is_intersection, initial_state(), seq![], 0) == walk(
                edges@,
                is_intersection,
                st,
                out@,
                i as int,
            ),
            st.circled_back || i >= max_iterations,
        decreases max_iterations - i,
    {
        if st.circled_back {
            break;
        }
        let edge_idx = i % n;
        let edge = &edges[edge_idx];
        let ghost st_before = st;
        let ghost out_before = out@;
        if st.first_edge == Some(edge_idx) {
            st.circled_back = true;
        }
        match (edge.entry, edge.exit) {
            (None, None) => {},
            (Some(a), Some(b)) => {
                mark_first_edge(&mut st, edge_idx);
                let first = process_crossing(&mut st, &mut out, edge, a, edge.entry_at_end, is_intersection, false);
                if first.is_err() {
                    assert(edge_step(st_before, out_before, edges@[edge_idx as int], edge_idx, is_intersection) is None);
                    return Err(TraceError::BothEndpointsInside);
                }
                let second = process_crossing(&mut st, &mut out, edge, b, edge.exit_at_end, is_intersection, true);
                if second.is_err() {
                    assert(edge_step(st_before, out_before, edges@[edge_idx as int], edge_idx, is_intersection) is None);
                    return Err(TraceError::BothEndpointsInside);
                }
            },
            (Some(a), None) => {
                mark_first_edge(&mut st, edge_idx);
                let first = process_crossing(&mut st, &mut out, edge, a, edge.entry_at_end, is_intersection, false);
                if first.is_err() {
                    assert(edge_step(st_before, out_before, edges@[edge_idx as int], edge_idx, is_intersection) is None);
                    return Err(TraceError::BothEndpointsInside);
                }
            },
            (None, Some(b)) => {
                mark_first_edge(&mut st, edge_idx);
                let first = process_crossing(&mut st, &mut out, edge, b, edge.exit_at_end, is_intersection, false);
                if first.is_err() {
                    assert(edge_step(st_before, out_before, edges@[edge_idx as int], edge_idx, is_intersection) is None);
                    return Err(TraceError::BothEndpointsInside);
                }
            },
        }
        if st.following_polygon && !st.circled_back {
            out.push(TraceItem::Point(edge.end));
        }
        assert(edge_step(st_before, out_before, edges@[edge_idx as int], edge_idx, is_intersection) == Some((st, out@)));
        i += 1;
    }
    assert(walk(edges@, is_intersection, st, out@, i as int) == Some(out@));
    Ok(out)
}

/// The circle/line intersector reports no crossing for an edge whose
/// endpoints are both inside the circle.
pub open spec fn filtered<P>(e: EdgeCrossing<P>) -> bool {
    e.start_inside && e.end_inside ==> e.entry is None && e.exit is None
}

proof fn lemma_edge_step_succeeds<P>(
    st: TraceState<P>,
    out: Seq<TraceItem<P>>,
    e: EdgeCrossing<P>,
    idx: usize,
    is_intersection: bool,
)
    requires
        filtered(e),
    ensures
        edge_step(st, out, e, idx, is_intersection) is Some,
{
}

/// When every edge's crossings come from an intersector that reports none
/// for an edge inside the circle, the tracer never reaches the invalid
/// state: the walk always produces a boundary.
pub proof fn lemma_filtered_walk_succeeds<P>(
    edges: Seq<EdgeCrossing<P>>,
    is_intersection: bool,
    st: TraceState<P>,
    out: Seq<TraceItem<P>>,
    i: int,
)
    requires
        forall|k: int| 0 <= k < edges.len() ==> filtered(#[trigger] edges[k]),
    ensures
        walk(edges, is_intersection, st, out, i) is Some,
    decreases 2 * edges.len() - i,
{
    if !(i >= 2 * edges.len() || st.circled_back || edges.len() == 0) {
        let n = edges.len() as int;
        let idx = (i % n) as usize;
        assert(0 <= i % n < n);
        lemma_edge_step_succeeds(st, out, edges[idx as int], idx, is_intersection);
        let (st1, out1) = edge_step(st, out, edges[idx as int], idx, is_intersection).unwrap();
        lemma_filtered_walk_succeeds(edges, is_intersection, st1, out1, i + 1);
    }
}

} // verus!
