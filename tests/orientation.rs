use intersections::geometry::{line_line_intersection_int, line_segment_intersects_int, orient2d_int};
use intersections::js_api::orient2d_i32_js;
use intersections::point::{orient2d_value, Coord, Orientation};
use intersections::segment::OrderedSegment;

fn c(x: i32, y: i32) -> Coord {
    Coord::new(x, y)
}

#[test]
fn ccw_orientation_works() {
    let a = c(2300, 1900);
    let b = c(4200, 1900);
    let cc = c(2387, 1350);
    assert_eq!(orient2d_value(a, b, cc), 1045000);
}

#[test]
fn cw_orientation_works() {
    let a = c(2300, 1900);
    let b = c(4200, 1900);
    let d = c(2500, 2100);
    assert_eq!(orient2d_value(a, b, d), -380000);
}

#[test]
fn collinear_orientation_works() {
    let a = c(2300, 1900);
    let b = c(4200, 1900);
    let e = c(3200, 1900);
    assert_eq!(orient2d_value(a, b, e), 0);
}

#[test]
fn intersection_found() {
    let ab = OrderedSegment::new(c(2300, 1900), c(4200, 1900));
    let cd = OrderedSegment::new(c(2387, 1350), c(2500, 2100));
    assert!(ab.intersects(&cd));
}

#[test]
fn intersection_not_found() {
    let ab = OrderedSegment::new(c(2300, 1900), c(4200, 1900));
    let df = OrderedSegment::new(c(2500, 2100), c(2900, 2100));
    assert!(!ab.intersects(&df));
}

#[test]
fn orient_point_int32_works() {
    let p1 = c(0, 0);
    let p2 = c(1, 1);
    let p3 = c(0, 1); // cw
    let p4 = c(1, 0); // ccw
    let p5 = c(2, 2); // collinear

    assert_eq!(p1.orient2d(p2, p3), Orientation::Clockwise);
    assert_eq!(p1.orient2d(p2, p4), Orientation::CounterClockwise);
    assert_eq!(p1.orient2d(p2, p5), Orientation::Collinear);
}

#[test]
fn orient_point_float64_works() {
    // the same points, in the exact integer kernel
    let p1 = c(0, 0);
    let p2 = c(1, 1);
    let p3 = c(0, 1);
    let p4 = c(1, 0);
    let p5 = c(2, 2);

    assert_eq!(p1.orient2d(p2, p3), Orientation::Clockwise);
    assert_eq!(p1.orient2d(p2, p4), Orientation::CounterClockwise);
    assert_eq!(p1.orient2d(p2, p5), Orientation::Collinear);
}

#[test]
fn orient_point_int32_overflow_works() {
    let nw = c(i32::MIN, i32::MIN);
    let sw = c(i32::MIN, i32::MAX);
    let ne = c(i32::MAX, i32::MIN);
    let se = c(i32::MAX, i32::MAX);
    let z = c(0, 0);

    assert_eq!(nw.orient2d(se, ne), Orientation::CounterClockwise);
    assert_eq!(nw.orient2d(se, sw), Orientation::Clockwise);
    assert_eq!(nw.orient2d(z, se), Orientation::Collinear);
    assert_eq!(nw.orient2d(sw, se), Orientation::CounterClockwise);
    assert_eq!(nw.orient2d(ne, se), Orientation::Clockwise);
}

#[test]
fn orientation_reverses_when_first_two_swap() {
    let a = c(3, -7);
    let b = c(-11, 5);
    let p = c(2, 9);
    assert_eq!(a.orient2d(b, p), Orientation::CounterClockwise);
    assert_eq!(b.orient2d(a, p), Orientation::Clockwise);
    assert_eq!(orient2d_value(a, b, p), -orient2d_value(b, a, p));
    assert_eq!(orient2d_value(a, b, p), 212);
}

#[test]
fn orientation_as_number() {
    assert_eq!(orient2d_i32_js(0, 0, 1, 1, 0, 1), 1);
    assert_eq!(orient2d_i32_js(0, 0, 1, 1, 1, 0), -1);
    assert_eq!(orient2d_i32_js(0, 0, 1, 1, 2, 2), 0);
}

#[test]
fn orientation_value_at_range_corners() {
    let nw = c(i32::MIN, i32::MIN);
    let se = c(i32::MAX, i32::MAX);
    let ne = c(i32::MAX, i32::MIN);
    // (MIN - MIN) * ... - (MIN - MAX) * (MAX - MIN) = (2^32 - 1)^2
    let expected: i128 = (u32::MAX as i128) * (u32::MAX as i128);
    assert_eq!(orient2d_value(nw, se, ne), expected);
}

#[test]
fn point_pair_kernel() {
    let a = c(2300, 1900);
    let b = c(4200, 1900);
    let cc = c(2387, 1350);
    let d = c(2500, 2100);
    let f = c(2900, 2100);
    assert_eq!(orient2d_int(&a, &b, &cc), 1045000);
    assert!(line_segment_intersects_int(&a, &b, &cc, &d));
    assert!(line_segment_intersects_int(&b, &a, &d, &cc));
    assert!(!line_segment_intersects_int(&a, &b, &d, &f));
    let p = line_line_intersection_int(&a, &b, &cc, &d).unwrap();
    assert_eq!(p.y.num, 1900 * p.y.den);
    assert!(line_line_intersection_int(&a, &b, &d, &f).is_none());
}
