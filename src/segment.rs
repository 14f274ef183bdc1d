//! Ordered segments, the intersection predicate and the intersection locator.

use crate::point::{
    lemma_cross_identity, lemma_mul_bounded, lemma_orient_value_bounded, orient2d_value, orient_value, orientation, Coord, Orientation,
};
use std::cmp::Ordering;
use vstd::prelude::*;

verus! {

/// `p` comes strictly before `q`: by `x` first, then by `y`.
pub open spec fn lex_lt(p: Coord, q: Coord) -> bool {
    p.x < q.x || (p.x == q.x && p.y < q.y)
}

/// `p` comes before `q` or equals it.
pub open spec fn lex_le(p: Coord, q: Coord) -> bool {
    p.x < q.x || (p.x == q.x && p.y <= q.y)
}

/// The lexicographic comparison of two points.
pub open spec fn lex_cmp(p: Coord, q: Coord) -> Ordering {
    if lex_lt(p, q) {
        Ordering::Less
    } else if p == q {
        Ordering::Equal
    } else {
        Ordering::Greater
    }
}

/// A segment whose endpoints are stored in lexicographic order, together
/// with an opaque index back to the caller's data.
#[derive(Debug, Clone, Copy, PartialEq, Eq, Structural)]
pub struct OrderedSegment {
    pub start: Coord,
    pub end: Coord,
    pub idx: usize,
}

/// An exact rational number `num / den`.
#[derive(Debug, Clone, Copy, PartialEq, Eq, Structural)]
pub struct Ratio {
    pub num: i128,
    pub den: i128,
}

/// An intersection point with rational coordinates, each with a positive
/// denominator.
#[derive(Debug, Clone, Copy, PartialEq, Eq, Structural)]
pub struct IxPoint {
    pub x: Ratio,
    pub y: Ratio,
}

impl IxPoint {
    /// `(x numerator, x denominator, y numerator, y denominator)`.
    pub open spec fn view(self) -> (int, int, int, int) {
        (self.x.num as int, self.x.den as int, self.y.num as int, self.y.den as int)
    }
}

impl Ratio {
    /// Euclidean quotient and remainder of `num` by `den`: the value is
    /// `quot + rem / den` with `0 <= rem < den`.
    pub fn quot_rem(&self) -> (r: (i128, i128))
        requires
            self.den > 0,
        ensures
            r.0 * self.den + r.1 == self.num,
            0 <= r.1 < self.den,
    {
        let q = euclid_div(self.num, self.den);
        let m = euclid_rem(self.num, self.den);
        proof {
            vstd::arithmetic::div_mod::lemma_fundamental_div_mod(self.num as int, self.den as int);
            vstd::arithmetic::mul::lemma_mul_is_commutative(q as int, self.den as int);
        }
        (q, m)
    }
}

fn euclid_div(n: i128, d: i128) -> (r: i128)
    requires
        d > 0,
    ensures
        r == n as int / d as int,
{
    proof {
        let ni = n as int;
        let di = d as int;
        vstd::arithmetic::div_mod::lemma_fundamental_div_mod(ni, di);
        vstd::arithmetic::div_mod::lemma_mod_bound(ni, di);
        let q = ni / di;
        let m = ni % di;
        assert(ni >= 0 ==> 0 <= q <= ni) by (nonlinear_arith)
            requires
                ni == di * q + m,
                0 <= m < di,
                di > 0,
        ;
        assert(ni < 0 ==> ni <= q <= 0) by (nonlinear_arith)
            requires
                ni == di * q + m,
                0 <= m < di,
                di > 0,
        ;
    }
    n.checked_div_euclid(d).unwrap()
}

fn euclid_rem(n: i128, d: i128) -> (r: i128)
    requires
        d > 0,
    ensures
        r == n as int % d as int,
{
    proof {
        vstd::arithmetic::div_mod::lemma_mod_bound(n as int, d as int);
    }
    n.checked_rem_euclid(d).unwrap()
}

/// Whether two segments cross, properly or at a shared endpoint. When both
/// endpoints of `s2` are collinear with `s1` the answer is `false`:
/// overlapping collinear segments are not reported.
pub open spec fn segments_intersect(s1: OrderedSegment, s2: OrderedSegment) -> bool {
    let xa = orientation(s1.start, s1.end, s2.start);
    let xb = orientation(s1.start, s1.end, s2.end);
    let xc = orientation(s2.start, s2.end, s1.start);
    let xd = orientation(s2.start, s2.end, s1.end);
    if xa == Orientation::Collinear && xb == Orientation::Collinear {
        false
    } else {
        xa != xb && xc != xd
    }
}

/// The crossing point of the infinite lines through `s1` and `s2`, as
/// `(x numerator, x denominator, y numerator, y denominator)`, or `None` when
/// the lines are parallel or coincide.
///
/// With `a = orient_value(s1.start, s1.end, s2.start)` and
/// `b = orient_value(s1.start, s1.end, s2.end)`, the point is
/// `(a * s2.end - b * s2.start) / (a - b)`, written with a positive
/// denominator.
pub open spec fn line_intersection_spec(s1: OrderedSegment, s2: OrderedSegment) -> Option<
    (int, int, int, int),
> {
    let a = orient_value(s1.start, s1.end, s2.start);
    let b = orient_value(s1.start, s1.end, s2.end);
    let den = a - b;
    let xn = a * s2.end.x - b * s2.start.x;
    let yn = a * s2.end.y - b * s2.start.y;
    if den == 0 {
        None
    } else if den > 0 {
        Some((xn, den, yn, den))
    } else {
        Some((-xn, -den, -yn, -den))
    }
}

/// The segment between two points with its endpoints in lexicographic order.
pub open spec fn ordered_segment(p: Coord, q: Coord, idx: usize) -> OrderedSegment {
    if lex_le(p, q) {
        OrderedSegment { start: p, end: q, idx }
    } else {
        OrderedSegment { start: q, end: p, idx }
    }
}

impl OrderedSegment {
    /// The endpoints are in lexicographic order.
    pub open spec fn wf(self) -> bool {
        lex_le(self.start, self.end)
    }

    /// The segment from `start` to `end`, with its endpoints swapped when
    /// `end` comes first.
    pub fn new_with_idx(start: Coord, end: Coord, idx: usize) -> (s: OrderedSegment)
        ensures
            s == ordered_segment(start, end, idx),
            s.wf(),
            s.idx == idx,
            lex_le(start, end) ==> s.start == start && s.end == end,
            !lex_le(start, end) ==> s.start == end && s.end == start,
    {
        match OrderedSegment::compare_xy(start, end) {
            Ordering::Greater => OrderedSegment { start: end, end: start, idx },
            _ => OrderedSegment { start, end, idx },
        }
    }

    /// As `new_with_idx`, with index 0.
    pub fn new(start: Coord, end: Coord) -> (s: OrderedSegment)
        ensures
            s.wf(),
            s.idx == 0,
            lex_le(start, end) ==> s.start == start && s.end == end,
            !lex_le(start, end) ==> s.start == end && s.end == start,
    {
        OrderedSegment::new_with_idx(start, end, 0)
    }

    pub fn set_idx(&mut self, idx: usize)
        ensures
            final(self).idx == idx,
            final(self).start == old(self).start,
            final(self).end == old(self).end,
    {
        self.idx = idx;
    }

    /// Lexicographic comparison of two points, `x` first.
    pub fn compare_xy(start: Coord, end: Coord) -> (r: Ordering)
        ensures
            r == lex_cmp(start, end),
    {
        if start.x == end.x {
            if start.y == end.y {
                Ordering::Equal
            } else if start.y < end.y {
                Ordering::Less
            } else {
                Ordering::Greater
            }
        } else if start.x < end.x {
            Ordering::Less
        } else {
            Ordering::Greater
        }
    }

    /// Change in `x` from start to end.
    pub fn dx(&self) -> (r: i64)
        ensures
            r == self.end.x - self.start.x,
    {
        self.end.x as i64 - self.start.x as i64
    }

    /// Change in `y` from start to end.
    pub fn dy(&self) -> (r: i64)
        ensures
            r == self.end.y - self.start.y,
    {
        self.end.y as i64 - self.start.y as i64
    }

    /// `(dx, dy)`.
    pub fn delta(&self) -> (r: (i64, i64))
        ensures
            r.0 == self.end.x - self.start.x,
            r.1 == self.end.y - self.start.y,
    {
        (self.dx(), self.dy())
    }

    pub fn start_point(&self) -> (r: Coord)
        ensures
            r == self.start,
    {
        self.start
    }

    pub fn end_point(&self) -> (r: Coord)
        ensures
            r == self.end,
    {
        self.end
    }

    pub fn points(&self) -> (r: (Coord, Coord))
        ensures
            r == (self.start, self.end),
    {
        (self.start, self.end)
    }

    pub fn coordinates(&self) -> (r: (Coord, Coord))
        ensures
            r == (self.start, self.end),
    {
        (self.start, self.end)
    }

    /// `(start.x, start.y, end.x, end.y)`.
    pub fn coords(&self) -> (r: (i32, i32, i32, i32))
        ensures
            r == (self.start.x, self.start.y, self.end.x, self.end.y),
    {
        (self.start.x, self.start.y, self.end.x, self.end.y)
    }

    /// Compares this segment's end with `other`'s start.
    pub fn cmp_segments(&self, other: &OrderedSegment) -> (r: Ordering)
        ensures
            r == lex_cmp(self.end, other.start),
    {
        OrderedSegment::compare_xy(self.end, other.start)
    }

    /// This segment ends before `other` starts.
    pub fn is_left(&self, other: &OrderedSegment) -> (r: bool)
        ensures
            r == lex_lt(self.end, other.start),
    {
        match OrderedSegment::compare_xy(self.end, other.start) {
            Ordering::Less => true,
            _ => false,
        }
    }

    /// This segment starts after `other` ends.
    pub fn is_right(&self, other: &OrderedSegment) -> (r: bool)
        ensures
            r == lex_lt(other.end, self.start),
    {
        match OrderedSegment::compare_xy(self.start, other.end) {
            Ordering::Greater => true,
            _ => false,
        }
    }

    /// Whether the two segments cross (see `segments_intersect`).
    pub fn intersects(&self, other: &OrderedSegment) -> (r: bool)
        ensures
            r == segments_intersect(*self, *other),
    {
        let (a, b) = self.coordinates();
        let (c, d) = other.coordinates();
        let xa = a.orient2d(b, c);
        let xb = a.orient2d(b, d);
        if xa == Orientation::Collinear && xb == Orientation::Collinear {
            return false;
        }
        let xc = c.orient2d(d, a);
        let xd = c.orient2d(d, b);
        xa != xb && xc != xd
    }

    /// The crossing point of the infinite lines through the two segments
    /// (see `line_intersection_spec`); `None` when they are parallel.
    pub fn line_intersection(&self, other: &OrderedSegment) -> (r: Option<IxPoint>)
        ensures
            r is None <==> line_intersection_spec(*self, *other) is None,
            r matches Some(p) ==> line_intersection_spec(*self, *other) == Some(p@),
    {
        let a = orient2d_value(self.start, self.end, other.start);
        let b = orient2d_value(self.start, self.end, other.end);
        let (cx, cy) = (other.start.x as i128, other.start.y as i128);
        let (dx, dy) = (other.end.x as i128, other.end.y as i128);
        proof {
            lemma_orient_value_bounded(self.start, self.end, other.start);
            lemma_orient_value_bounded(self.start, self.end, other.end);
            lemma_mul_bounded(a as int, dx as int, C65 as int, C31 as int);
            lemma_mul_bounded(b as int, cx as int, C65 as int, C31 as int);
            lemma_mul_bounded(a as int, dy as int, C65 as int, C31 as int);
            lemma_mul_bounded(b as int, cy as int, C65 as int, C31 as int);
        }
        let den = a - b;
        if den == 0 {
            return None;
        }
        let xn = a * dx - b * cx;
        let yn = a * dy - b * cy;
        if den > 0 {
            Some(IxPoint { x: Ratio { num: xn, den }, y: Ratio { num: yn, den } })
        } else {
            Some(IxPoint { x: Ratio { num: -xn, den: -den }, y: Ratio { num: -yn, den: -den } })
        }
    }
}

const C31: u64 = 0x8000_0000;

const C65: u128 = 0x2_0000_0000_0000_0000;

/// The four orientation values of two segments' endpoints against each
/// other's line are linked: `a - b + c - d == 0`, and
/// `a * s2.end - b * s2.start + c * s1.end - d * s1.start == 0` coordinate by
/// coordinate.
proof fn lemma_orientation_relations(p: Coord, q: Coord, r: Coord, t: Coord)
    ensures
        ({
            let a = orient_value(p, q, r);
            let b = orient_value(p, q, t);
            let c = orient_value(r, t, p);
            let d = orient_value(r, t, q);
            &&& a - b + c - d == 0
            &&& a * t.x - b * r.x + c * q.x - d * p.x == 0
            &&& a * t.y - b * r.y + c * q.y - d * p.y == 0
        }),
{
    let a = orient_value(p, q, r);
    let b = orient_value(p, q, t);
    let c = orient_value(r, t, p);
    let d = orient_value(r, t, q);
    let (ux, uy) = (q.x - p.x, q.y - p.y);
    let (vx, vy) = (r.x - p.x, r.y - p.y);
    let (wx, wy) = (t.x - p.x, t.y - p.y);
    assert(a == -(ux * vy - uy * vx)) by (nonlinear_arith)
        requires
            a == (p.y - r.y) * (q.x - r.x) - (p.x - r.x) * (q.y - r.y),
            ux == q.x - p.x,
            uy == q.y - p.y,
            vx == r.x - p.x,
            vy == r.y - p.y,
    ;
    assert(b == -(ux * wy - uy * wx)) by (nonlinear_arith)
        requires
            b == (p.y - t.y) * (q.x - t.x) - (p.x - t.x) * (q.y - t.y),
            ux == q.x - p.x,
            uy == q.y - p.y,
            wx == t.x - p.x,
            wy == t.y - p.y,
    ;
    assert(c == -(vx * wy - vy * wx)) by (nonlinear_arith)
        requires
            c == (r.y - p.y) * (t.x - p.x) - (r.x - p.x) * (t.y - p.y),
            vx == r.x - p.x,
            vy == r.y - p.y,
            wx == t.x - p.x,
            wy == t.y - p.y,
    ;
    assert(d == (vy - uy) * (wx - ux) - (vx - ux) * (wy - uy)) by (nonlinear_arith)
        requires
            d == (r.y - q.y) * (t.x - q.x) - (r.x - q.x) * (t.y - q.y),
            ux == q.x - p.x,
            uy == q.y - p.y,
            vx == r.x - p.x,
            vy == r.y - p.y,
            wx == t.x - p.x,
            wy == t.y - p.y,
    ;
    assert(a - b + c - d == 0) by (nonlinear_arith)
        requires
            a == -(ux * vy - uy * vx),
            b == -(ux * wy - uy * wx),
            c == -(vx * wy - vy * wx),
            d == (vy - uy) * (wx - ux) - (vx - ux) * (wy - uy),
    ;
    lemma_cross_identity(ux, uy, vx, vy, wx, wy);
    let k = a - b + c - d;
    assert(a * wx - b * vx + c * ux == 0) by (nonlinear_arith)
        requires
            a == -(ux * vy - uy * vx),
            b == -(ux * wy - uy * wx),
            c == -(vx * wy - vy * wx),
            (vx * wy - vy * wx) * ux + (wx * uy - wy * ux) * vx + (ux * vy - uy * vx) * wx == 0,
    ;
    assert(a * wy - b * vy + c * uy == 0) by (nonlinear_arith)
        requires
            a == -(ux * vy - uy * vx),
            b == -(ux * wy - uy * wx),
            c == -(vx * wy - vy * wx),
            (vx * wy - vy * wx) * uy + (wx * uy - wy * ux) * vy + (ux * vy - uy * vx) * wy == 0,
    ;
    assert(a * t.x - b * r.x + c * q.x - d * p.x == (a * wx - b * vx + c * ux) + k * p.x)
        by (nonlinear_arith)
        requires
            k == a - b + c - d,
            wx == t.x - p.x,
            vx == r.x - p.x,
            ux == q.x - p.x,
    ;
    assert(a * t.y - b * r.y + c * q.y - d * p.y == (a * wy - b * vy + c * uy) + k * p.y)
        by (nonlinear_arith)
        requires
            k == a - b + c - d,
            wy == t.y - p.y,
            vy == r.y - p.y,
            uy == q.y - p.y,
    ;
}

/// Two values of weakly opposite signs, not both zero.
pub open spec fn straddles(a: int, b: int) -> bool {
    (a >= 0 && b <= 0 || a <= 0 && b >= 0) && a != b
}

/// If `(a * pd - b * pc) / (a - b)`, a point between `pc` and `pd`, equals
/// `(d * pa - c * pb) / (d - c)`, a point between `pa` and `pb`, then
/// `pc <= pb`; and equality pins both weighted points to their ends.
proof fn lemma_weighted_crossing(
    a: int,
    b: int,
    c: int,
    d: int,
    pa: int,
    pb: int,
    pc: int,
    pd: int,
)
    requires
        a - b == d - c,
        a * pd - b * pc == d * pa - c * pb,
        straddles(a, b),
        straddles(c, d),
        a == 0 || pc <= pd,
        d == 0 || pa <= pb,
    ensures
        pc <= pb,
        pc == pb ==> (a == 0 || pc == pd) && (d == 0 || pa == pb),
{
    if a - b > 0 {
        assert(a * pd - b * pc >= (a - b) * pc) by (nonlinear_arith)
            requires
                a >= 0,
                a == 0 || pc <= pd,
        ;
        assert(d * pa - c * pb <= (d - c) * pb) by (nonlinear_arith)
            requires
                d >= 0,
                d == 0 || pa <= pb,
        ;
        assert(pc <= pb) by (nonlinear_arith)
            requires
                (a - b) * pc <= (a - b) * pb,
                a - b > 0,
        ;
        if pc == pb {
            assert(a * (pd - pc) == 0) by (nonlinear_arith)
                requires
                    a * pd - b * pc == (a - b) * pc,
            ;
            assert(d * (pb - pa) == 0) by (nonlinear_arith)
                requires
                    d * pa - c * pb == (d - c) * pb,
            ;
            assert(a == 0 || pc == pd) by (nonlinear_arith)
                requires
                    a * (pd - pc) == 0,
            ;
            assert(d == 0 || pa == pb) by (nonlinear_arith)
                requires
                    d * (pb - pa) == 0,
            ;
        }
    } else {
        assert(a * pd - b * pc <= (a - b) * pc) by (nonlinear_arith)
            requires
                a <= 0,
                a == 0 || pc <= pd,
        ;
        assert(d * pa - c * pb >= (d - c) * pb) by (nonlinear_arith)
            requires
                d <= 0,
                d == 0 || pa <= pb,
        ;
        assert(pc <= pb) by (nonlinear_arith)
            requires
                (a - b) * pc >= (a - b) * pb,
                a - b < 0,
        ;
        if pc == pb {
            assert(a * (pd - pc) == 0) by (nonlinear_arith)
                requires
                    a * pd - b * pc == (a - b) * pc,
            ;
            assert(d * (pb - pa) == 0) by (nonlinear_arith)
                requires
                    d * pa - c * pb == (d - c) * pb,
            ;
            assert(a == 0 || pc == pd) by (nonlinear_arith)
                requires
                    a * (pd - pc) == 0,
            ;
            assert(d == 0 || pa == pb) by (nonlinear_arith)
                requires
                    d * (pb - pa) == 0,
            ;
        }
    }
}

proof fn lemma_intersect_straddles(s1: OrderedSegment, s2: OrderedSegment)
    requires
        segments_intersect(s1, s2),
    ensures
        straddles(orient_value(s1.start, s1.end, s2.start), orient_value(s1.start, s1.end, s2.end)),
        straddles(orient_value(s2.start, s2.end, s1.start), orient_value(s2.start, s2.end, s1.end)),
{
}

/// A segment that ends before another starts does not cross it.
pub proof fn lemma_separated_no_intersection(s1: OrderedSegment, s2: OrderedSegment)
    requires
        s1.wf(),
        s2.wf(),
        lex_lt(s1.end, s2.start),
    ensures
        !segments_intersect(s1, s2),
        !segments_intersect(s2, s1),
{
    if segments_intersect(s1, s2) {
        let (p, q, r, t) = (s1.start, s1.end, s2.start, s2.end);
        lemma_intersect_straddles(s1, s2);
        lemma_orientation_relations(p, q, r, t);
        let a = orient_value(p, q, r);
        let b = orient_value(p, q, t);
        let c = orient_value(r, t, p);
        let d = orient_value(r, t, q);
        lemma_weighted_crossing(a, b, c, d, p.x as int, q.x as int, r.x as int, t.x as int);
        lemma_weighted_crossing(a, b, c, d, p.y as int, q.y as int, r.y as int, t.y as int);
    }
}

/// The rational `num / den` (with `den > 0`) lies between `lo` and `hi`.
pub open spec fn ratio_within(num: int, den: int, lo: int, hi: int) -> bool {
    den * lo <= num <= den * hi
}

/// The rational point `(xn / xd, yn / yd)` lies in the bounding box of `s`.
pub open spec fn in_bounding_box(p: (int, int, int, int), s: OrderedSegment) -> bool {
    let (xn, xd, yn, yd) = p;
    &&& ratio_within(
        xn,
        xd,
        if s.start.x <= s.end.x { s.start.x as int } else { s.end.x as int },
        if s.start.x <= s.end.x { s.end.x as int } else { s.start.x as int },
    )
    &&& ratio_within(
        yn,
        yd,
        if s.start.y <= s.end.y { s.start.y as int } else { s.end.y as int },
        if s.start.y <= s.end.y { s.end.y as int } else { s.start.y as int },
    )
}

proof fn lemma_weighted_between(a: int, b: int, pc: int, pd: int)
    requires
        straddles(a, b),
    ensures
        a - b > 0 ==> ratio_within(
            a * pd - b * pc,
            a - b,
            if pc <= pd { pc } else { pd },
            if pc <= pd { pd } else { pc },
        ),
        a - b < 0 ==> ratio_within(
            -(a * pd - b * pc),
            -(a - b),
            if pc <= pd { pc } else { pd },
            if pc <= pd { pd } else { pc },
        ),
{
    let lo = if pc <= pd { pc } else { pd };
    let hi = if pc <= pd { pd } else { pc };
    assert(a - b > 0 ==> (a - b) * lo <= a * pd - b * pc <= (a - b) * hi) by (nonlinear_arith)
        requires
            straddles(a, b),
            lo <= pc <= hi,
            lo <= pd <= hi,
    ;
    assert(a - b < 0 ==> (b - a) * lo <= b * pc - a * pd <= (b - a) * hi) by (nonlinear_arith)
        requires
            straddles(a, b),
            lo <= pc <= hi,
            lo <= pd <= hi,
    ;
}

/// When two segments cross, the locator finds a point, and that point lies
/// in the bounding box of each segment (exactly, with no tolerance).
pub proof fn lemma_intersection_in_both_boxes(s1: OrderedSegment, s2: OrderedSegment)
    requires
        segments_intersect(s1, s2),
    ensures
        line_intersection_spec(s1, s2) is Some,
        in_bounding_box(line_intersection_spec(s1, s2).unwrap(), s1),
        in_bounding_box(line_intersection_spec(s1, s2).unwrap(), s2),
{
    let (p, q, r, t) = (s1.start, s1.end, s2.start, s2.end);
    lemma_intersect_straddles(s1, s2);
    lemma_orientation_relations(p, q, r, t);
    let a = orient_value(p, q, r);
    let b = orient_value(p, q, t);
    let c = orient_value(r, t, p);
    let d = orient_value(r, t, q);
    lemma_weighted_between(a, b, r.x as int, t.x as int);
    lemma_weighted_between(a, b, r.y as int, t.y as int);
    lemma_weighted_between(d, c, q.x as int, p.x as int);
    lemma_weighted_between(d, c, q.y as int, p.y as int);
}

/// The intersection predicate does not depend on the order of its arguments.
pub proof fn lemma_intersects_symmetric(s1: OrderedSegment, s2: OrderedSegment)
    ensures
        segments_intersect(s1, s2) == segments_intersect(s2, s1),
{
}

/// The locator gives the same point for both argument orders.
pub proof fn lemma_line_intersection_symmetric(s1: OrderedSegment, s2: OrderedSegment)
    ensures
        line_intersection_spec(s1, s2) == line_intersection_spec(s2, s1),
{
    lemma_orientation_relations(s1.start, s1.end, s2.start, s2.end);
}

} // verus!
