//! Integer points and the orientation predicate.

use vstd::prelude::*;

verus! {

/// A point of the plane with 32-bit integer coordinates.
#[derive(Debug, Clone, Copy, PartialEq, Eq, Structural)]
pub struct Coord {
    pub x: i32,
    pub y: i32,
}

/// Orientation of a point `c` relative to the directed line `a -> b`.
#[derive(Debug, Clone, Copy, PartialEq, Eq, Structural)]
pub enum Orientation {
    Clockwise,
    CounterClockwise,
    Collinear,
}

/// `(a.y - c.y) * (b.x - c.x) - (a.x - c.x) * (b.y - c.y)`, computed exactly.
pub open spec fn orient_value(a: Coord, b: Coord, c: Coord) -> int {
    (a.y - c.y) * (b.x - c.x) - (a.x - c.x) * (b.y - c.y)
}

/// The orientation that a signed value encodes.
pub open spec fn orientation_of(v: int) -> Orientation {
    if v > 0 {
        Orientation::CounterClockwise
    } else if v < 0 {
        Orientation::Clockwise
    } else {
        Orientation::Collinear
    }
}

/// The orientation of `c` relative to `a -> b`.
pub open spec fn orientation(a: Coord, b: Coord, c: Coord) -> Orientation {
    orientation_of(orient_value(a, b, c))
}

/// The orientation seen from the opposite direction.
pub open spec fn reversed(o: Orientation) -> Orientation {
    match o {
        Orientation::Clockwise => Orientation::CounterClockwise,
        Orientation::CounterClockwise => Orientation::Clockwise,
        Orientation::Collinear => Orientation::Collinear,
    }
}

/// `p` lies on the line `{ (x, y) | u * x + v * y == w }`.
pub open spec fn on_line(u: int, v: int, w: int, p: Coord) -> bool {
    u * p.x + v * p.y == w
}

/// Some straight line passes through all three points.
pub open spec fn on_one_line(a: Coord, b: Coord, c: Coord) -> bool {
    exists|u: int, v: int, w: int|
        (u != 0 || v != 0) && #[trigger] on_line(u, v, w, a) && on_line(u, v, w, b) && on_line(
            u,
            v,
            w,
            c,
        )
}

/// |x * y| <= bx * by when |x| <= bx and |y| <= by.
pub proof fn lemma_mul_bounded(x: int, y: int, bx: int, by: int)
    requires
        -bx <= x <= bx,
        -by <= y <= by,
    ensures
        -(bx * by) <= x * y <= bx * by,
{
    assert(-(bx * by) <= x * y <= bx * by) by (nonlinear_arith)
        requires
            -bx <= x <= bx,
            -by <= y <= by,
    ;
}

/// The orientation value of 32-bit points lies within `[-2^65, 2^65]`.
pub proof fn lemma_orient_value_bounded(a: Coord, b: Coord, c: Coord)
    ensures
        -0x2_0000_0000_0000_0000 <= orient_value(a, b, c) <= 0x2_0000_0000_0000_0000,
{
    lemma_mul_bounded(a.y - c.y, b.x - c.x, 0x1_0000_0000, 0x1_0000_0000);
    lemma_mul_bounded(a.x - c.x, b.y - c.y, 0x1_0000_0000, 0x1_0000_0000);
}

proof fn lemma_cross_zero_of_common_normal(u: int, v: int, px: int, py: int, qx: int, qy: int)
    requires
        u != 0 || v != 0,
        u * px + v * py == 0,
        u * qx + v * qy == 0,
    ensures
        px * qy - py * qx == 0,
{
    assert(u * (px * qy - py * qx) == 0) by (nonlinear_arith)
        requires
            u * px + v * py == 0,
            u * qx + v * qy == 0,
    ;
    assert(v * (px * qy - py * qx) == 0) by (nonlinear_arith)
        requires
            u * px + v * py == 0,
            u * qx + v * qy == 0,
    ;
    if px * qy - py * qx != 0 {
        assert(u == 0) by (nonlinear_arith)
            requires
                u * (px * qy - py * qx) == 0,
                px * qy - py * qx != 0,
        ;
        assert(v == 0) by (nonlinear_arith)
            requires
                v * (px * qy - py * qx) == 0,
                px * qy - py * qx != 0,
        ;
    }
}

/// Swapping the first two points reverses the orientation, and a triple is
/// collinear exactly when one straight line passes through all three points.
pub proof fn lemma_orientation_laws(a: Coord, b: Coord, c: Coord)
    ensures
        orientation(a, b, c) == reversed(orientation(b, a, c)),
        orientation(a, b, c) == Orientation::Collinear <==> on_one_line(a, b, c),
{
    assert(orient_value(a, b, c) == -orient_value(b, a, c)) by (nonlinear_arith);
    if orient_value(a, b, c) == 0 {
        if a != b {
            let u = b.y - a.y;
            let v = a.x - b.x;
            let w = u * a.x + v * a.y;
            assert(on_line(u, v, w, b)) by (nonlinear_arith)
                requires
                    u == b.y - a.y,
                    v == a.x - b.x,
                    w == u * a.x + v * a.y,
            ;
            assert(on_line(u, v, w, c)) by (nonlinear_arith)
                requires
                    u == b.y - a.y,
                    v == a.x - b.x,
                    w == u * a.x + v * a.y,
                    orient_value(a, b, c) == 0,
            ;
            assert(on_line(u, v, w, a));
        } else if a != c {
            let u = c.y - a.y;
            let v = a.x - c.x;
            let w = u * a.x + v * a.y;
            assert(on_line(u, v, w, c)) by (nonlinear_arith)
                requires
                    u == c.y - a.y,
                    v == a.x - c.x,
                    w == u * a.x + v * a.y,
            ;
            assert(on_line(u, v, w, a));
            assert(on_line(u, v, w, b));
        } else {
            assert(on_line(1, 0, a.x as int, a));
            assert(on_line(1, 0, a.x as int, b));
            assert(on_line(1, 0, a.x as int, c));
        }
    }
    if on_one_line(a, b, c) {
        let (u, v, w) = choose|u: int, v: int, w: int|
            (u != 0 || v != 0) && #[trigger] on_line(u, v, w, a) && on_line(u, v, w, b)
                && on_line(u, v, w, c);
        assert(u * (b.x - a.x) + v * (b.y - a.y) == 0) by (nonlinear_arith)
            requires
                on_line(u, v, w, a),
                on_line(u, v, w, b),
        ;
        assert(u * (c.x - a.x) + v * (c.y - a.y) == 0) by (nonlinear_arith)
            requires
                on_line(u, v, w, a),
                on_line(u, v, w, c),
        ;
        lemma_cross_zero_of_common_normal(u, v, b.x - a.x, b.y - a.y, c.x - a.x, c.y - a.y);
        assert(orient_value(a, b, c) == 0) by (nonlinear_arith)
            requires
                (b.x - a.x) * (c.y - a.y) - (b.y - a.y) * (c.x - a.x) == 0,
        ;
    }
}

impl Coord {
    pub fn new(x: i32, y: i32) -> (r: Coord)
        ensures
            r.x == x,
            r.y == y,
    {
        Coord { x, y }
    }

    /// The coordinates as a pair `(x, y)`.
    pub fn x_y(&self) -> (r: (i32, i32))
        ensures
            r == (self.x, self.y),
    {
        (self.x, self.y)
    }

    /// Orientation of `c` relative to the directed line `self -> b`, computed
    /// in 128-bit arithmetic so that the sign is exact for every input.
    pub fn orient2d(self, b: Coord, c: Coord) -> (r: Orientation)
        ensures
            r == orientation(self, b, c),
    {
        let v = orient2d_value(self, b, c);
        if v > 0 {
            Orientation::CounterClockwise
        } else if v < 0 {
            Orientation::Clockwise
        } else {
            Orientation::Collinear
        }
    }
}

/// The exact value `(a.y - c.y) * (b.x - c.x) - (a.x - c.x) * (b.y - c.y)`:
/// positive when `a -> b -> c` turns counter-clockwise, negative when it turns
/// clockwise, zero when the points are collinear.
pub fn orient2d_value(a: Coord, b: Coord, c: Coord) -> (r: i128)
    ensures
        r == orient_value(a, b, c),
{
    let (ax, ay) = (a.x as i128, a.y as i128);
    let (bx, by) = (b.x as i128, b.y as i128);
    let (cx, cy) = (c.x as i128, c.y as i128);
    let dy_ac = ay - cy;
    let dx_bc = bx - cx;
    let dx_ac = ax - cx;
    let dy_bc = by - cy;
    proof {
        lemma_mul_bounded(dy_ac as int, dx_bc as int, 0x1_0000_0000, 0x1_0000_0000);
        lemma_mul_bounded(dx_ac as int, dy_bc as int, 0x1_0000_0000, 0x1_0000_0000);
    }
    let right = dy_ac * dx_bc;
    let left = dx_ac * dy_bc;
    right - left
}

/// For plane vectors `u, v, w`:
/// `cross(v, w) * u + cross(w, u) * v + cross(u, v) * w == 0`, coordinate by
/// coordinate.
pub proof fn lemma_cross_identity(ux: int, uy: int, vx: int, vy: int, wx: int, wy: int)
    ensures
        (vx * wy - vy * wx) * ux + (wx * uy - wy * ux) * vx + (ux * vy - uy * vx) * wx == 0,
        (vx * wy - vy * wx) * uy + (wx * uy - wy * ux) * vy + (ux * vy - uy * vx) * wy == 0,
{
    assert((vx * wy - vy * wx) * ux + (wx * uy - wy * ux) * vx + (ux * vy - uy * vx) * wx == 0)
        by (nonlinear_arith);
    assert((vx * wy - vy * wx) * uy + (wx * uy - wy * ux) * vy + (ux * vy - uy * vx) * wy == 0)
        by (nonlinear_arith);
}

} // verus!
