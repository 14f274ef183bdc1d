use intersections::intersections::{
    ix_brute_double_i32, ix_brute_single_i32, ix_sort_double_i32, ix_sort_single_i32,
    IxVec,
};
use intersections::js_api::{brute_double_i32, brute_i32, segments_from_coords, sort_double_i32, sort_i32};
use intersections::point::Coord;
use intersections::segment::{OrderedSegment, Ratio};

fn c(x: i32, y: i32) -> Coord {
    Coord::new(x, y)
}

fn seg(a: (i32, i32), b: (i32, i32), idx: usize) -> OrderedSegment {
    OrderedSegment::new_with_idx(c(a.0, a.1), c(b.0, b.1), idx)
}

fn to_f64(r: &Ratio) -> f64 {
    let (q, rem) = r.quot_rem();
    (q as f64) + (rem as f64 / r.den as f64)
}

/// `(x, y, idx1, idx2)` of each result.
fn flat(ixs: &IxVec) -> Vec<(f64, f64, usize, usize)> {
    ixs.as_slice().iter().map(|r| (to_f64(&r.ix.x), to_f64(&r.ix.y), r.idx1, r.idx2)).collect()
}

fn points(ixs: &IxVec) -> Vec<(f64, f64)> {
    ixs.as_slice().iter().map(|r| (to_f64(&r.ix.x), to_f64(&r.ix.y))).collect()
}

fn sorted(mut v: Vec<(f64, f64, usize, usize)>) -> Vec<(f64, f64, usize, usize)> {
    v.sort_by(|a, b| a.partial_cmp(b).unwrap());
    v
}

fn three() -> Vec<OrderedSegment> {
    // s0|s1 intersect, s0|s2 do not, s1|s2 meet at an endpoint
    vec![
        seg((2300, 1900), (4200, 1900), 0),
        seg((2387, 1350), (2500, 2100), 1),
        seg((2500, 2100), (2900, 2100), 2),
    ]
}

fn single_expected() -> Vec<(f64, f64, usize, usize)> {
    vec![(2469.866666666667, 1900., 0, 1), (2500., 2100., 1, 2)]
}

fn double_expected() -> Vec<(f64, f64, usize, usize)> {
    vec![
        (2469.866666666667, 1900., 0, 1),
        (2469.866666666667, 1900., 1, 0),
        (2500., 2100., 1, 2),
        (2500., 2100., 2, 1),
    ]
}

#[test]
fn brute_single_float_works() {
    let segments = three();
    assert_eq!(flat(&ix_brute_single_i32(&segments)), single_expected());
}

#[test]
fn brute_double_float_works() {
    let segments = three();
    assert_eq!(flat(&ix_brute_double_i32(&segments, &segments)), double_expected());
}

#[test]
fn brute_single_int_works() {
    let segments = three();
    assert_eq!(flat(&ix_brute_single_i32(&segments)), single_expected());
}

#[test]
fn brute_double_int_works() {
    let segments = three();
    assert_eq!(flat(&ix_brute_double_i32(&segments, &segments)), double_expected());
}

#[test]
fn sort_single_float_works() {
    let mut segments = three();
    assert_eq!(flat(&ix_sort_single_i32(&mut segments)), single_expected());
}

#[test]
fn sort_double_float_works() {
    let mut segments1 = three();
    let mut segments2 = segments1.clone();
    assert_eq!(flat(&ix_sort_double_i32(&mut segments1, &mut segments2)), double_expected());
}

#[test]
fn sort_single_int_works() {
    let mut segments = three();
    assert_eq!(flat(&ix_sort_single_i32(&mut segments)), single_expected());
}

#[test]
fn sort_double_int_works() {
    let mut segments1 = three();
    let mut segments2 = segments1.clone();
    assert_eq!(flat(&ix_sort_double_i32(&mut segments1, &mut segments2)), double_expected());
}

fn single_points() -> Vec<(f64, f64)> {
    vec![(2469.866666666667, 1900.), (2500., 2100.)]
}

fn double_points() -> Vec<(f64, f64)> {
    vec![(2469.866666666667, 1900.), (2469.866666666667, 1900.), (2500., 2100.), (2500., 2100.)]
}

#[test]
fn intersections_brute_single_float_works() {
    let segments = three();
    assert_eq!(points(&ix_brute_single_i32(&segments)), single_points());
}

#[test]
fn intersections_brute_double_float_works() {
    let segments = three();
    assert_eq!(points(&ix_brute_double_i32(&segments, &segments)), double_points());
}

#[test]
fn intersections_brute_single_int_works() {
    let segments = three();
    assert_eq!(points(&ix_brute_single_i32(&segments)), single_points());
}

#[test]
fn intersections_brute_double_int_works() {
    let segments = three();
    assert_eq!(points(&ix_brute_double_i32(&segments, &segments)), double_points());
}

#[test]
fn intersections_sort_single_float_works() {
    let mut segments = three();
    assert_eq!(points(&ix_sort_single_i32(&mut segments)), single_points());
}

#[test]
fn intersections_sort_double_float_works() {
    let mut segments1 = three();
    let mut segments2 = segments1.clone();
    assert_eq!(points(&ix_sort_double_i32(&mut segments1, &mut segments2)), double_points());
}

#[test]
fn intersections_sort_single_int_works() {
    let mut segments = three();
    assert_eq!(points(&ix_sort_single_i32(&mut segments)), single_points());
}

#[test]
fn intersections_sort_double_int_works() {
    let mut segments1 = three();
    let mut segments2 = segments1.clone();
    assert_eq!(points(&ix_sort_double_i32(&mut segments1, &mut segments2)), double_points());
}

fn square_and_diamond() -> (Vec<OrderedSegment>, Vec<OrderedSegment>) {
    // square with a rotated square, one shared vertex
    let p00 = (100, 100);
    let p01 = (1000, 100);
    let p02 = (1000, 1000);
    let p03 = (100, 1000);

    let p10 = (50, 500);
    let p11 = (500, 50);
    let p12 = (1500, 500);
    let p13 = (500, 1500);

    let segments0 = vec![seg(p00, p01, 0), seg(p01, p02, 1), seg(p02, p03, 2), seg(p03, p00, 3)];
    let segments1 = vec![seg(p10, p11, 0), seg(p11, p12, 1), seg(p12, p13, 2), seg(p13, p10, 3)];
    (segments0, segments1)
}

#[test]
fn sort_double_float_square_diamond_works() {
    let (mut segments0, mut segments1) = square_and_diamond();
    let expected = vec![
        (450., 100., 0, 0),
        (611.1111111111111, 100., 0, 1),
        (100., 450., 3, 0),
        (100., 611.1111111111111, 3, 3),
        (275., 1000., 2, 3),
        (1000., 1000., 2, 2),
        (1000., 275., 1, 1),
        (1000., 1000., 1, 2),
    ];
    // the order of the records follows the sort, which leaves segments with
    // equal start points in no fixed order
    let ixs = ix_sort_double_i32(&mut segments0, &mut segments1);
    assert_eq!(sorted(flat(&ixs)), sorted(expected));
}

#[test]
fn brute_double_float_square_diamond_works() {
    let (segments0, segments1) = square_and_diamond();
    let expected = vec![
        (450., 100., 0, 0),
        (611.1111111111111, 100., 0, 1),
        (1000., 275., 1, 1),
        (1000., 1000., 1, 2),
        (1000., 1000., 2, 2),
        (275., 1000., 2, 3),
        (100., 450., 3, 0),
        (100., 611.1111111111111, 3, 3),
    ];
    assert_eq!(flat(&ix_brute_double_i32(&segments0, &segments1)), expected);
}

#[test]
fn brute_single_i32_works() {
    let coordinates: Vec<i32> = vec![
        2300, 1900, 4200, 1900, //
        2387, 1350, 2500, 2100, //
        2387, 1350, 3200, 1900, //
        2500, 2100, 2900, 2100,
    ];
    let expected = vec![
        (2469.866666666667, 1900., 0, 1),
        (3200., 1900., 0, 2),
        (2387., 1350., 1, 2),
        (2500., 2100., 1, 3),
    ];
    let res = brute_i32(&coordinates[..]).unwrap();
    assert_eq!(flat(&res), expected);
}

#[test]
fn sweep_and_brute_agree_up_to_order() {
    let coordinates: Vec<i32> = vec![
        2500, 2100, 2900, 2100, //
        2387, 1350, 3200, 1900, //
        4200, 1900, 2300, 1900, //
        2387, 1350, 2500, 2100, //
        -50, 3000, 3000, -50,
    ];
    let unordered = |v: Vec<(f64, f64, usize, usize)>| {
        sorted(v.into_iter().map(|(x, y, i, j)| (x, y, i.min(j), i.max(j))).collect())
    };
    let brute = flat(&brute_i32(&coordinates).unwrap());
    let sweep = flat(&sort_i32(&coordinates).unwrap());
    assert!(brute.len() >= 4);
    assert_eq!(unordered(brute), unordered(sweep));

    let other: Vec<i32> = vec![0, 2000, 5000, 2000, 2400, 0, 2400, 5000];
    let brute2 = flat(&brute_double_i32(&coordinates, &other).unwrap());
    let sweep2 = flat(&sort_double_i32(&coordinates, &other).unwrap());
    assert_eq!(sorted(brute2), sorted(sweep2));
}

#[test]
fn flat_arrays_without_intersections() {
    let coordinates: Vec<i32> = vec![0, 0, 1, 0, 0, 5, 1, 5];
    assert!(brute_i32(&coordinates).is_none());
    assert!(sort_i32(&coordinates).is_none());
    assert!(brute_i32(&[]).is_none());
    assert!(sort_double_i32(&coordinates, &[]).is_none());
    assert!(brute_double_i32(&[], &coordinates).is_none());
}

#[test]
fn flat_array_segments_are_numbered() {
    let coordinates: Vec<i32> = vec![4, 4, 1, 1, 0, 0, 0, 3];
    let segments = segments_from_coords(&coordinates);
    assert_eq!(segments.len(), 2);
    assert_eq!(segments[0], seg((1, 1), (4, 4), 0));
    assert_eq!(segments[1], seg((0, 0), (0, 3), 1));
}

#[test]
fn sweep_sorts_by_start_point() {
    let mut segments = vec![
        seg((5, 0), (9, 9), 0),
        seg((1, 7), (2, 0), 1),
        seg((1, 3), (8, 3), 2),
    ];
    let _ = ix_sort_single_i32(&mut segments);
    let starts: Vec<(i32, i32)> = segments.iter().map(|s| (s.start.x, s.start.y)).collect();
    assert_eq!(starts, vec![(1, 3), (1, 7), (5, 0)]);
}
