use intersections::circle::{Circle, Contains};
use intersections::point::Coord;
use intersections::random::GenerateRandom;
use intersections::segment::OrderedSegment;

#[test]
fn contains_point_works() {
    let c = Circle { center: Coord { x: 0, y: 0 }, radius: 100 };

    let inside = Coord { x: 25, y: -25 };
    let outside = Coord { x: -150, y: -150 };
    let border = Coord { x: 100, y: 0 };

    assert!(c.contains(&inside));
    assert!(!c.contains(&outside));
    assert!(c.contains(&border));
    assert!(c.encompasses(&border));
}

#[test]
fn zero_radius_contains_nothing() {
    let c = Circle::new(Coord::new(3, 4), 0);
    assert!(!c.contains(&Coord::new(3, 4)));
}

#[test]
fn containment_far_from_origin() {
    let c = Circle::new(Coord::new(i32::MIN, i32::MAX), u32::MAX);
    assert!(c.contains(&Coord::new(i32::MAX, i32::MAX)));
    assert!(!c.contains(&Coord::new(i32::MAX, i32::MIN)));
    assert!(c.contains(&Coord::new(i32::MIN, i32::MAX)));
}

#[test]
fn create_int_works() {
    let s = OrderedSegment::random();
    let (ax, ay, bx, by) = s.coords();
    assert!(ax < bx || ax == bx && ay <= by);

    let (a, b) = s.points();
    let s_dupe = OrderedSegment::new(a, b);
    assert_eq!(s, s_dupe);
}

#[test]
fn random_points_respect_their_range() {
    for _ in 0..100 {
        let p = Coord::random_range(-5, 5);
        assert!(-5 <= p.x && p.x <= 5 && -5 <= p.y && p.y <= 5);
        let q = Coord::random_pos(3);
        assert!(0 <= q.x && q.x <= 3 && 0 <= q.y && q.y <= 3);
        let s = OrderedSegment::random_pos(10);
        assert!(s.start.x <= s.end.x);
        assert!(0 <= s.start.y && s.end.y <= 10);
    }
}

#[test]
fn random_ceil_points() {
    for _ in 0..100 {
        let p = Coord::random_ceil(4, true);
        assert!(-4 <= p.x && p.x < 4 && -4 <= p.y && p.y < 4);
        let q = Coord::random_ceil(4, false);
        assert!(0 <= q.x && q.x < 4 && 0 <= q.y && q.y < 4);
    }
}
