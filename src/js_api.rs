//! Entry points on flat coordinate arrays: `[ax, ay, bx, by, ...]`, four
//! values per segment, the segment's index being its position in the array.

use crate::intersections::{
    all_wf, brute_double_records, brute_single_records, ix_brute_double_i32, ix_brute_single_i32,
    ix_contents, ix_sort_double_i32, ix_sort_single_i32, records, sorted_by_start, IxVec,
    MAX_RECORDS,
};
use crate::point::{orientation, Coord, Orientation};
use crate::segment::{ordered_segment, OrderedSegment};
use vstd::prelude::*;

verus! {

/// The segments that a flat coordinate array describes.
pub open spec fn flat_segments(coords: Seq<i32>) -> Seq<OrderedSegment> {
    Seq::new(
        coords.len() / 4,
        |k: int|
            ordered_segment(
                Coord { x: coords[4 * k], y: coords[4 * k + 1] },
                Coord { x: coords[4 * k + 2], y: coords[4 * k + 3] },
                k as usize,
            ),
    )
}

/// Reads the segments of a flat coordinate array, numbering them in order.
pub fn segments_from_coords(coords: &[i32]) -> (r: Vec<OrderedSegment>)
    requires
        coords@.len() % 4 == 0,
    ensures
        r@ == flat_segments(coords@),
        all_wf(r@),
{
    let len = coords.len();
    let n = len / 4;
    assert(coords@.len() == 4 * n);
    let mut segments: Vec<OrderedSegment> = Vec::new();
    let mut k: usize = 0;
    while k < n
        invariant
            n == coords@.len() / 4,
            coords@.len() % 4 == 0,
            k <= n,
            coords@.len() == 4 * n,
            len == coords@.len(),
            segments@ =~= flat_segments(coords@).subrange(0, k as int),
            all_wf(segments@),
        decreases n - k,
    {
        assert(4 * k + 3 < coords@.len()) by (nonlinear_arith)
            requires
                k < n,
                coords@.len() == 4 * n,
        ;
        let i = 4 * k;
        let s = OrderedSegment::new_with_idx(
            Coord::new(coords[i], coords[i + 1]),
            Coord::new(coords[i + 2], coords[i + 3]),
            k,
        );
        segments.push(s);
        k += 1;
    }
    segments
}

/// `None` when nothing was found.
fn bundle_ix(ixs: IxVec) -> (r: Option<IxVec>)
    ensures
        r is None <==> ix_contents(ixs).len() == 0,
        r matches Some(v) ==> ix_contents(v) == ix_contents(ixs),
{
    if ixs.len() == 0 {
        None
    } else {
        Some(ixs)
    }
}

/// Brute-force intersections within one flat array; `None` when there are
/// none.
pub fn brute_i32(coordinates: &[i32]) -> (r: Option<IxVec>)
    requires
        coordinates@.len() % 4 == 0,
        (coordinates@.len() / 4) * (coordinates@.len() / 4) <= MAX_RECORDS,
    ensures
        r is None <==> brute_single_records(flat_segments(coordinates@)).len() == 0,
        r matches Some(v) ==> records(ix_contents(v)) == brute_single_records(flat_segments(coordinates@)),
{
    let segments = segments_from_coords(coordinates);
    let ixs = ix_brute_single_i32(segments.as_slice());
    bundle_ix(ixs)
}

/// Brute-force intersections between two flat arrays; `None` when there are
/// none.
pub fn brute_double_i32(coordinates0: &[i32], coordinates1: &[i32]) -> (r: Option<IxVec>)
    requires
        coordinates0@.len() % 4 == 0,
        coordinates1@.len() % 4 == 0,
        (coordinates0@.len() / 4) * (coordinates1@.len() / 4) <= MAX_RECORDS,
    ensures
        r is None <==> brute_double_records(
            flat_segments(coordinates0@),
            flat_segments(coordinates1@),
        ).len() == 0,
        r matches Some(v) ==> records(ix_contents(v)) == brute_double_records(
            flat_segments(coordinates0@),
            flat_segments(coordinates1@),
        ),
{
    let segments0 = segments_from_coords(coordinates0);
    let segments1 = segments_from_coords(coordinates1);
    let ixs = ix_brute_double_i32(segments0.as_slice(), segments1.as_slice());
    bundle_ix(ixs)
}

/// Sweep-line intersections within one flat array; `None` when there are
/// none. The records are those of the segments sorted by start point.
pub fn sort_i32(coordinates: &[i32]) -> (r: Option<IxVec>)
    requires
        coordinates@.len() % 4 == 0,
        (coordinates@.len() / 4) * (coordinates@.len() / 4) <= MAX_RECORDS,
    ensures
        exists|t: Seq<OrderedSegment>|
            t.to_multiset() == flat_segments(coordinates@).to_multiset() && sorted_by_start(t) && ({
                let found = brute_single_records(t);
                &&& r is None <==> found.len() == 0
                &&& r matches Some(v) ==> records(ix_contents(v)) == found
            }),
{
    let mut segments = segments_from_coords(coordinates);
    let ixs = ix_sort_single_i32(&mut segments);
    bundle_ix(ixs)
}

/// Sweep-line intersections between two flat arrays; `None` when there are
/// none. The records are those of the two sets sorted by start point.
pub fn sort_double_i32(coordinates0: &[i32], coordinates1: &[i32]) -> (r: Option<IxVec>)
    requires
        coordinates0@.len() % 4 == 0,
        coordinates1@.len() % 4 == 0,
        (coordinates0@.len() / 4) * (coordinates1@.len() / 4) <= MAX_RECORDS,
    ensures
        exists|t0: Seq<OrderedSegment>, t1: Seq<OrderedSegment>|
            t0.to_multiset() == flat_segments(coordinates0@).to_multiset() && t1.to_multiset()
                == flat_segments(coordinates1@).to_multiset() && sorted_by_start(t0)
                && sorted_by_start(t1) && ({
                let found = brute_double_records(t0, t1);
                &&& r is None <==> found.len() == 0
                &&& r matches Some(v) ==> records(ix_contents(v)) == found
            }),
{
    let mut segments0 = segments_from_coords(coordinates0);
    let mut segments1 = segments_from_coords(coordinates1);
    let ixs = ix_sort_double_i32(&mut segments0, &mut segments1);
    bundle_ix(ixs)
}

/// Orientation as a number: `1` clockwise, `-1` counter-clockwise, `0`
/// collinear.
pub fn orient2d_i32_js(ax: i32, ay: i32, bx: i32, by: i32, cx: i32, cy: i32) -> (r: i8)
    ensures
        r == match orientation(Coord { x: ax, y: ay }, Coord { x: bx, y: by }, Coord { x: cx, y: cy }) {
            Orientation::Clockwise => 1i8,
            Orientation::CounterClockwise => -1i8,
            Orientation::Collinear => 0i8,
        },
{
    let c1 = Coord::new(ax, ay);
    let c2 = Coord::new(bx, by);
    let c3 = Coord::new(cx, cy);
    match c1.orient2d(c2, c3) {
        Orientation::Clockwise => 1,
        Orientation::CounterClockwise => -1,
        Orientation::Collinear => 0,
    }
}

} // verus!
