//! The same kernel on bare point pairs, for callers that do not keep
//! segments.

use crate::point::{orient2d_value, orient_value, Coord};
use crate::segment::{line_intersection_spec, segments_intersect, IxPoint, OrderedSegment};
use vstd::prelude::*;

verus! {

/// A point with 32-bit integer coordinates.
pub type PointInt = Coord;

/// The segment `a -> b`, endpoints as given.
pub open spec fn raw_segment(a: Coord, b: Coord) -> OrderedSegment {
    OrderedSegment { start: a, end: b, idx: 0 }
}

/// Twice the signed area of the triangle `a, b, c`: positive when it turns
/// counter-clockwise, negative when clockwise, zero when collinear. Exact.
pub fn orient2d_int(a: &PointInt, b: &PointInt, c: &PointInt) -> (r: i128)
    ensures
        r == orient_value(*a, *b, *c),
{
    orient2d_value(*a, *b, *c)
}

/// Whether segment `a b` crosses segment `c d` (see `segments_intersect`).
pub fn line_segment_intersects_int(a: &PointInt, b: &PointInt, c: &PointInt, d: &PointInt) -> (r:
    bool)
    ensures
        r == segments_intersect(raw_segment(*a, *b), raw_segment(*c, *d)),
{
    let ab = OrderedSegment { start: *a, end: *b, idx: 0 };
    let cd = OrderedSegment { start: *c, end: *d, idx: 0 };
    ab.intersects(&cd)
}

/// The crossing point of the infinite lines `a b` and `c d`; `None` when
/// they are parallel.
pub fn line_line_intersection_int(a: &PointInt, b: &PointInt, c: &PointInt, d: &PointInt) -> (r:
    Option<IxPoint>)
    ensures
        r is None <==> line_intersection_spec(raw_segment(*a, *b), raw_segment(*c, *d)) is None,
        r matches Some(p) ==> line_intersection_spec(raw_segment(*a, *b), raw_segment(*c, *d))
            == Some(p@),
{
    let ab = OrderedSegment { start: *a, end: *b, idx: 0 };
    let cd = OrderedSegment { start: *c, end: *d, idx: 0 };
    ab.line_intersection(&cd)
}

} // verus!
