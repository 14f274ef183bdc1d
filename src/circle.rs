//! Circles on integer coordinates and the containment test.

use crate::point::{lemma_mul_bounded, Coord};
use vstd::prelude::*;

verus! {

/// A circle with an integer center and a non-negative integer radius.
#[derive(Debug, Clone, Copy, PartialEq, Eq, Structural)]
pub struct Circle {
    pub center: Coord,
    pub radius: u32,
}

/// Squared distance between two points.
pub open spec fn dist2(p: Coord, q: Coord) -> int {
    (p.x - q.x) * (p.x - q.x) + (p.y - q.y) * (p.y - q.y)
}

/// Containment of one shape in another.
pub trait Contains<Other> {
    /// `other` lies within `self`, and does not cross its boundary.
    spec fn contains_spec(&self, other: &Other) -> bool;

    /// The endpoints (or points) of `other` lie within `self`.
    spec fn encompasses_spec(&self, other: &Other) -> bool;

    fn contains(&self, other: &Other) -> (r: bool)
        ensures
            r == self.contains_spec(other),
    ;

    fn encompasses(&self, other: &Other) -> (r: bool)
        ensures
            r == self.encompasses_spec(other),
    ;
}

impl Circle {
    pub fn new(center: Coord, radius: u32) -> (r: Circle)
        ensures
            r.center == center,
            r.radius == radius,
    {
        Circle { center, radius }
    }
}

/// A point is inside a circle of positive radius when its distance to the
/// center is at most the radius; the boundary counts as inside.
impl Contains<Coord> for Circle {
    open spec fn contains_spec(&self, other: &Coord) -> bool {
        self.radius > 0 && dist2(self.center, *other) <= self.radius * self.radius
    }

    open spec fn encompasses_spec(&self, other: &Coord) -> bool {
        self.contains_spec(other)
    }

    fn contains(&self, other: &Coord) -> (r: bool) {
        if self.radius == 0 {
            return false;
        }
        let dx = self.center.x as i128 - other.x as i128;
        let dy = self.center.y as i128 - other.y as i128;
        let r = self.radius as i128;
        proof {
            lemma_mul_bounded(dx as int, dx as int, 0x1_0000_0000, 0x1_0000_0000);
            lemma_mul_bounded(dy as int, dy as int, 0x1_0000_0000, 0x1_0000_0000);
            lemma_mul_bounded(r as int, r as int, 0x1_0000_0000, 0x1_0000_0000);
        }
        dx * dx + dy * dy <= r * r
    }

    fn encompasses(&self, other: &Coord) -> (r: bool) {
        self.contains(other)
    }
}

} // verus!
