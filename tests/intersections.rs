use intersections::{
    find_all_intersections, find_intersection, Crossing, Point, PolygonError, Ratio, ScanError,
};

fn pt(x: i32, y: i32) -> Point {
    Point::new(x, y)
}

/// The exact value of a coordinate, as a float for comparison.
fn value(r: &Ratio) -> f64 {
    assert!(r.den > 0);
    r.num as f64 / r.den as f64
}

fn is_point(c: &Crossing, x: i32, y: i32) -> bool {
    c.x.den > 0
        && c.y.den == c.x.den
        && c.x.num == x as i128 * c.x.den
        && c.y.num == y as i128 * c.y.den
}

fn points(flat: &[Ratio]) -> Vec<(f64, f64)> {
    assert_eq!(flat.len() % 2, 0);
    flat.chunks(2).map(|p| (value(&p[0]), value(&p[1]))).collect()
}

#[test]
fn point_new_keeps_coordinates() {
    let p = Point::new(-3, 7);
    assert_eq!(p.x, -3);
    assert_eq!(p.y, 7);
}

#[test]
fn known_crossing_is_exactly_one_one() {
    let r = find_intersection(&pt(0, 0), &pt(2, 2), &pt(0, 2), &pt(2, 0)).unwrap();
    assert!(is_point(&r, 1, 1));
    assert_eq!(r.x, Ratio { num: 8, den: 8 });
    assert_eq!(r.y, Ratio { num: 8, den: 8 });
}

#[test]
fn crossing_at_a_fraction() {
    // (0,0)-(3,0) against (1,-1)-(2,2): the lines meet at (4/3, 0).
    let r = find_intersection(&pt(0, 0), &pt(3, 0), &pt(1, -1), &pt(2, 2)).unwrap();
    assert_eq!(r.x.num * 3, 4 * r.x.den);
    assert_eq!(r.y.num, 0);
    assert!(r.x.den > 0);
}

#[test]
fn shared_endpoint_is_reported() {
    let r = find_intersection(&pt(0, 0), &pt(1, 1), &pt(1, 1), &pt(2, 0)).unwrap();
    assert!(is_point(&r, 1, 1));
}

#[test]
fn shared_start_point_is_reported() {
    let r = find_intersection(&pt(0, 0), &pt(1, 1), &pt(0, 0), &pt(2, 0)).unwrap();
    assert!(is_point(&r, 0, 0));
}

#[test]
fn endpoint_touching_interior_is_reported() {
    // B ends on the middle of A.
    let r = find_intersection(&pt(0, 0), &pt(2, 0), &pt(1, 3), &pt(1, 0)).unwrap();
    assert!(is_point(&r, 1, 0));
}

#[test]
fn parallel_segments_do_not_intersect() {
    assert_eq!(find_intersection(&pt(0, 0), &pt(1, 0), &pt(0, 1), &pt(1, 1)), None);
}

#[test]
fn collinear_overlapping_segments_do_not_intersect() {
    assert_eq!(find_intersection(&pt(0, 0), &pt(2, 0), &pt(1, 0), &pt(3, 0)), None);
}

#[test]
fn collinear_segments_sharing_an_endpoint_do_not_intersect() {
    assert_eq!(find_intersection(&pt(0, 0), &pt(1, 0), &pt(1, 0), &pt(2, 0)), None);
}

#[test]
fn out_of_range_crossing_is_none() {
    assert_eq!(find_intersection(&pt(0, 0), &pt(1, 0), &pt(2, 1), &pt(2, -1)), None);
}

#[test]
fn crossing_beyond_second_segment_is_none() {
    // The lines meet at (1,0), which is on A but past the end of B.
    assert_eq!(find_intersection(&pt(0, 0), &pt(2, 0), &pt(1, 3), &pt(1, 1)), None);
}

#[test]
fn intersection_is_symmetric() {
    let cases = [
        (pt(0, 0), pt(2, 2), pt(0, 2), pt(2, 0)),
        (pt(0, 0), pt(3, 0), pt(1, -1), pt(2, 2)),
        (pt(0, 0), pt(1, 1), pt(1, 1), pt(2, 0)),
        (pt(0, 0), pt(1, 0), pt(0, 1), pt(1, 1)),
        (pt(0, 0), pt(1, 0), pt(2, 1), pt(2, -1)),
        (pt(-5, 7), pt(9, -2), pt(4, 8), pt(-1, -6)),
    ];
    for (p1, p2, p3, p4) in cases.iter() {
        assert_eq!(find_intersection(p1, p2, p3, p4), find_intersection(p3, p4, p1, p2));
    }
}

#[test]
fn extreme_coordinates_do_not_overflow() {
    let r = find_intersection(
        &pt(i32::MIN, i32::MIN),
        &pt(i32::MAX, i32::MAX),
        &pt(i32::MIN, i32::MAX),
        &pt(i32::MAX, i32::MIN),
    )
    .unwrap();
    assert_eq!(value(&r.x), -0.5);
    assert_eq!(value(&r.y), -0.5);
}

fn square(x: i32, y: i32, side: i32) -> Vec<i32> {
    vec![x, y, x + side, y, x + side, y + side, x, y + side]
}

#[test]
fn overlapping_squares_cross_twice() {
    // Two squares of side 2 offset by (1, 1): unit squares offset by half a
    // unit, on a grid of half units.
    let a = square(0, 0, 2);
    let b = square(1, 1, 2);
    let out = find_all_intersections(&a, &b).unwrap();
    assert_eq!(out.len(), 4);
    assert_eq!(points(&out), vec![(2.0, 1.0), (1.0, 2.0)]);
}

#[test]
fn disjoint_squares_give_nothing() {
    let a = square(0, 0, 1);
    let b = square(5, 5, 1);
    assert_eq!(find_all_intersections(&a, &b), Ok(vec![]));
}

#[test]
fn scan_twice_gives_identical_output() {
    let a = square(0, 0, 2);
    let b = square(1, 1, 2);
    let first = find_all_intersections(&a, &b);
    let second = find_all_intersections(&a, &b);
    assert_eq!(first, second);
}

#[test]
fn scan_reports_duplicates_at_shared_vertices() {
    // The triangle's apex (2,4) lies on the square's top edge; both triangle
    // edges meeting there report it, and nothing is deduplicated.
    let square_a = square(0, 0, 4);
    let triangle = vec![1, 6, 3, 6, 2, 4];
    let out = find_all_intersections(&square_a, &triangle).unwrap();
    assert_eq!(points(&out), vec![(2.0, 4.0), (2.0, 4.0)]);
}

#[test]
fn scan_order_follows_edges_of_first_polygon() {
    // A triangle crossed by a long thin two-vertex polygon (one segment, taken
    // there and back).
    let tri = vec![0, 0, 4, 0, 0, 4];
    let bar = vec![-1, 1, 5, 1];
    let out = find_all_intersections(&tri, &bar).unwrap();
    // Edge (4,0)-(0,4) meets y=1 at x=3, twice (the bar's two edges);
    // then edge (0,4)-(0,0) meets it at x=0, twice.
    assert_eq!(points(&out), vec![(3.0, 1.0), (3.0, 1.0), (0.0, 1.0), (0.0, 1.0)]);
}

#[test]
fn odd_first_polygon_is_rejected() {
    let b = square(0, 0, 1);
    assert_eq!(
        find_all_intersections(&[0, 0, 1, 1, 2], &b),
        Err(ScanError::First(PolygonError::OddLength))
    );
}

#[test]
fn short_first_polygon_is_rejected() {
    let b = square(0, 0, 1);
    assert_eq!(
        find_all_intersections(&[0, 0], &b),
        Err(ScanError::First(PolygonError::TooFewVertices))
    );
    assert_eq!(
        find_all_intersections(&[], &b),
        Err(ScanError::First(PolygonError::TooFewVertices))
    );
}

#[test]
fn second_polygon_is_checked_after_first() {
    let a = square(0, 0, 1);
    assert_eq!(
        find_all_intersections(&a, &[1, 2, 3]),
        Err(ScanError::Second(PolygonError::OddLength))
    );
    assert_eq!(
        find_all_intersections(&a, &[1, 2]),
        Err(ScanError::Second(PolygonError::TooFewVertices))
    );
    assert_eq!(
        find_all_intersections(&[1], &[1, 2]),
        Err(ScanError::First(PolygonError::OddLength))
    );
}

#[test]
fn error_descriptions() {
    assert_eq!(PolygonError::OddLength.describe(), "vertex sequence has odd length");
    assert_eq!(
        PolygonError::TooFewVertices.describe(),
        "vertex sequence holds fewer than two vertices"
    );
}
