use intersections::trace::{follows_polygon, trace_boundary, EdgeCrossing, TraceError, TraceItem};

type P = (f64, f64);

const IX_UPPER: P = (-44.721359549995796, 89.44271909999159);
const IX_LOWER: P = (-44.721359549995796, -89.44271909999159);

fn edge(entry: Option<P>, exit: Option<P>, start_inside: bool, end_inside: bool, end: P) -> EdgeCrossing<P> {
    EdgeCrossing { entry, exit, start_inside, end_inside, end, entry_at_end: false, exit_at_end: false }
}

/// The diamond `(-200,0), (-100,200), (0,0), (-100,-200)` against the circle
/// of radius 100 about the origin, edge by edge.
fn diamond() -> Vec<EdgeCrossing<P>> {
    vec![
        edge(None, None, false, false, (-100., 200.)),
        edge(Some(IX_UPPER), None, false, true, (0., 0.)),
        edge(None, Some(IX_LOWER), true, false, (-100., -200.)),
        edge(None, None, false, false, (-200., 0.)),
    ]
}

#[test]
fn diamond_intersection_boundary() {
    let res = trace_boundary(&diamond(), true).unwrap();
    assert_eq!(
        res,
        vec![
            TraceItem::Point(IX_UPPER),
            TraceItem::Point((0., 0.)),
            TraceItem::Point(IX_LOWER),
            TraceItem::Arc(IX_LOWER, IX_UPPER),
            TraceItem::Point(IX_UPPER),
        ]
    );
}

#[test]
fn diamond_union_boundary() {
    let res = trace_boundary(&diamond(), false).unwrap();
    assert_eq!(
        res,
        vec![
            TraceItem::Point(IX_UPPER),
            TraceItem::Arc(IX_UPPER, IX_LOWER),
            TraceItem::Point(IX_LOWER),
            TraceItem::Point((-100., -200.)),
            TraceItem::Point((-200., 0.)),
            TraceItem::Point((-100., 200.)),
            TraceItem::Point(IX_UPPER),
        ]
    );
}

#[test]
fn no_crossing_gives_empty_boundary() {
    let edges = vec![
        edge(None, None, false, false, (1., 0.)),
        edge(None, None, false, false, (0., 1.)),
        edge(None, None, false, false, (0., 0.)),
    ];
    assert_eq!(trace_boundary(&edges, true).unwrap(), vec![]);
    assert_eq!(trace_boundary(&Vec::<EdgeCrossing<P>>::new(), false).unwrap(), vec![]);
}

#[test]
fn crossing_with_both_endpoints_inside_is_refused() {
    let edges = vec![
        edge(None, None, false, false, (1., 0.)),
        edge(Some((0.5, 0.5)), None, true, true, (0., 1.)),
    ];
    assert_eq!(trace_boundary(&edges, true), Err(TraceError::BothEndpointsInside));
}

#[test]
fn crossing_at_edge_end_is_not_repeated() {
    // the second edge enters the circle exactly at its end vertex
    let mut edges = diamond();
    edges[1] = EdgeCrossing {
        entry: Some((0., 0.)),
        exit: None,
        start_inside: false,
        end_inside: true,
        end: (0., 0.),
        entry_at_end: true,
        exit_at_end: false,
    };
    let res = trace_boundary(&edges, true).unwrap();
    assert_eq!(res[0], TraceItem::Point((0., 0.)));
    assert_eq!(res[1], TraceItem::Point(IX_LOWER));
}

#[test]
fn edge_crossing_the_circle_twice() {
    // a triangle whose first edge passes through the circle
    let a = (-1., 0.);
    let b = (1., 0.);
    let edges = vec![
        edge(Some(a), Some(b), false, false, (5., 0.)),
        edge(None, None, false, false, (0., 5.)),
        edge(None, None, false, false, (-5., 0.)),
    ];
    let inter = trace_boundary(&edges, true).unwrap();
    // the closing edge is handled in full, both crossings included
    assert_eq!(
        inter,
        vec![
            TraceItem::Point(a),
            TraceItem::Point(b),
            TraceItem::Arc(b, a),
            TraceItem::Point(a),
            TraceItem::Point(b),
        ]
    );
    let union = trace_boundary(&edges, false).unwrap();
    assert_eq!(
        union,
        vec![
            TraceItem::Point(a),
            TraceItem::Arc(a, b),
            TraceItem::Point(b),
            TraceItem::Point((5., 0.)),
            TraceItem::Point((0., 5.)),
            TraceItem::Point((-5., 0.)),
            TraceItem::Point(a),
            TraceItem::Arc(a, b),
            TraceItem::Point(b),
        ]
    );
}

#[test]
fn decision_table() {
    assert_eq!(follows_polygon(false, false, true, false), Ok(true));
    assert_eq!(follows_polygon(false, false, true, true), Ok(false));
    assert_eq!(follows_polygon(false, false, false, false), Ok(false));
    assert_eq!(follows_polygon(false, false, false, true), Ok(true));
    assert_eq!(follows_polygon(true, false, false, false), Ok(true));
    assert_eq!(follows_polygon(true, false, true, false), Ok(false));
    assert_eq!(follows_polygon(false, true, true, false), Ok(true));
    assert_eq!(follows_polygon(false, true, false, false), Ok(false));
    assert_eq!(follows_polygon(true, true, true, false), Err(TraceError::BothEndpointsInside));
}

#[test]
fn edge_inside_the_circle_reports_no_crossing() {
    let e = EdgeCrossing::new(Some((0.5, 0.5)), Some((0.6, 0.6)), true, true, (0., 1.), false, false);
    assert_eq!(e.entry, None);
    assert_eq!(e.exit, None);
    let edges = vec![edge(None, None, false, false, (1., 0.)), e];
    assert_eq!(trace_boundary(&edges, true), Ok(vec![]));
    let kept = EdgeCrossing::new(Some((0.5, 0.5)), None, false, true, (0., 1.), false, false);
    assert_eq!(kept.entry, Some((0.5, 0.5)));
}
