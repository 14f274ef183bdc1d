//! Random points and segments, for test data and benchmarks.

use crate::point::Coord;
use crate::segment::OrderedSegment;
use vstd::prelude::*;

verus! {

/// Relies on `rand::Rng::gen_range` on `rand::thread_rng()`: a value of the
/// inclusive range `min..=max`, which must not be empty (else it panics).
#[verifier::external_body]
fn random_in(min: i32, max: i32) -> (r: i32)
    requires
        min <= max,
    ensures
        min <= r <= max,
{
    rand::Rng::gen_range(&mut rand::thread_rng(), min..=max)
}

/// Relies on `rand::random`: any `i32`.
#[verifier::external_body]
fn random_any() -> i32 {
    rand::random::<i32>()
}

/// Values drawn at random.
pub trait GenerateRandom: Sized {
    /// Every coordinate of `self` lies in `min..=max`.
    spec fn coords_within(&self, min: int, max: int) -> bool;

    /// Any coordinates.
    fn random() -> Self;

    /// Coordinates in `min..=max`.
    fn random_range(min: i32, max: i32) -> (r: Self)
        requires
            min <= max,
        ensures
            r.coords_within(min as int, max as int),
    ;

    /// Coordinates in `0..=max`.
    fn random_pos(max: i32) -> (r: Self)
        requires
            max >= 0,
        ensures
            r.coords_within(0, max as int),
    ;
}

impl GenerateRandom for Coord {
    open spec fn coords_within(&self, min: int, max: int) -> bool {
        min <= self.x <= max && min <= self.y <= max
    }

    fn random() -> Coord {
        Coord::new(random_any(), random_any())
    }

    fn random_range(min: i32, max: i32) -> (r: Coord) {
        Coord::new(random_in(min, max), random_in(min, max))
    }

    fn random_pos(max: i32) -> (r: Coord) {
        Coord::new(random_in(0, max), random_in(0, max))
    }
}

impl GenerateRandom for OrderedSegment {
    open spec fn coords_within(&self, min: int, max: int) -> bool {
        self.wf() && self.start.coords_within(min, max) && self.end.coords_within(min, max)
    }

    fn random() -> OrderedSegment {
        OrderedSegment::new(Coord::random(), Coord::random())
    }

    fn random_range(min: i32, max: i32) -> (r: OrderedSegment) {
        OrderedSegment::new(Coord::random_range(min, max), Coord::random_range(min, max))
    }

    fn random_pos(max: i32) -> (r: OrderedSegment) {
        OrderedSegment::new(Coord::random_pos(max), Coord::random_pos(max))
    }
}

impl Coord {
    /// A point with coordinates in `-max..max` when `negative` holds, else
    /// in `0..max`.
    pub fn random_ceil(max: i32, negative: bool) -> (r: Coord)
        requires
            max > 0,
        ensures
            negative ==> -max <= r.x < max && -max <= r.y < max,
            !negative ==> 0 <= r.x < max && 0 <= r.y < max,
    {
        let lo = if negative {
            -max
        } else {
            0
        };
        Coord::new(random_in(lo, max - 1), random_in(lo, max - 1))
    }
}

} // verus!
