//! The scan of every edge of one closed polygon against every edge of another.

use vstd::prelude::*;
use crate::segment::{crossing_of, find_intersection, Crossing, Point, Ratio};

verus! {

/// Why a flat vertex sequence does not describe a polygon.
#[derive(Clone, Copy, Debug, PartialEq, Eq, Structural)]
pub enum PolygonError {
    /// The sequence holds an x without its y.
    OddLength,
    /// The sequence holds fewer than two vertices.
    TooFewVertices,
}

/// Which of the two polygons of a scan was rejected, and why.
#[derive(Clone, Copy, Debug, PartialEq, Eq, Structural)]
pub enum ScanError {
    First(PolygonError),
    Second(PolygonError),
}

impl PolygonError {
    pub fn describe(&self) -> (r: &'static str)
        ensures
            r@ == match self {
                PolygonError::OddLength => "vertex sequence has odd length"@,
                PolygonError::TooFewVertices => "vertex sequence holds fewer than two vertices"@,
            },
    {
        proof {
            reveal_strlit("vertex sequence has odd length");
            reveal_strlit("vertex sequence holds fewer than two vertices");
        }
        match self {
            PolygonError::OddLength => "vertex sequence has odd length",
            PolygonError::TooFewVertices => "vertex sequence holds fewer than two vertices",
        }
    }
}

/// What is wrong, if anything, with a flat vertex sequence of length `len`.
pub open spec fn polygon_error_of(len: int) -> Option<PolygonError> {
    if len % 2 != 0 {
        Some(PolygonError::OddLength)
    } else if len < 4 {
        Some(PolygonError::TooFewVertices)
    } else {
        None
    }
}

/// The number of edges, equal to the number of vertices, of a closed polygon.
pub open spec fn edge_count(v: Seq<i32>) -> int {
    v.len() as int / 2
}

/// The first vertex of edge `k`: the pair at offsets `2k` and `2k + 1`.
pub open spec fn edge_start(v: Seq<i32>, k: int) -> Point {
    Point { x: v[2 * k], y: v[2 * k + 1] }
}

/// The second vertex of edge `k`: the pair at offsets `2k + 2` and `2k + 3`,
/// taken modulo the length so that the last edge closes the polygon.
pub open spec fn edge_end(v: Seq<i32>, k: int) -> Point {
    Point { x: v[(2 * k + 2) % (v.len() as int)], y: v[(2 * k + 3) % (v.len() as int)] }
}

/// What edge `k` of `a` against edge `m` of `b` adds to the output: the x
/// and then the y of their intersection, or nothing.
pub open spec fn pair_output(a: Seq<i32>, b: Seq<i32>, k: int, m: int) -> Seq<(int, int)> {
    match crossing_of(edge_start(a, k), edge_end(a, k), edge_start(b, m), edge_end(b, m)) {
        Some(c) => seq![c.0, c.1],
        None => seq![],
    }
}

/// The output of edge `k` of `a` against the first `m` edges of `b`.
pub open spec fn row_output(a: Seq<i32>, b: Seq<i32>, k: int, m: nat) -> Seq<(int, int)>
    decreases m,
{
    if m == 0 {
        seq![]
    } else {
        row_output(a, b, k, (m - 1) as nat) + pair_output(a, b, k, m - 1)
    }
}

/// The output of the first `k` edges of `a` against every edge of `b`.
pub open spec fn scan_upto(a: Seq<i32>, b: Seq<i32>, k: nat) -> Seq<(int, int)>
    decreases k,
{
    if k == 0 {
        seq![]
    } else {
        scan_upto(a, b, (k - 1) as nat) + row_output(a, b, k - 1, edge_count(b) as nat)
    }
}

/// The result of scanning polygon `a` against polygon `b`: the first
/// rejected input, or every intersection in the order of (edge of `a`, edge
/// of `b`), flattened to x then y.
pub open spec fn scan_result(a: Seq<i32>, b: Seq<i32>) -> Result<Seq<(int, int)>, ScanError> {
    if let Some(e) = polygon_error_of(a.len() as int) {
        Err(ScanError::First(e))
    } else if let Some(e) = polygon_error_of(b.len() as int) {
        Err(ScanError::Second(e))
    } else {
        Ok(scan_upto(a, b, edge_count(a) as nat))
    }
}

pub open spec fn ratios_view(s: Seq<Ratio>) -> Seq<(int, int)> {
    s.map_values(|r: Ratio| r@)
}

pub open spec fn scan_view(r: Result<Vec<Ratio>, ScanError>) -> Result<Seq<(int, int)>, ScanError> {
    match r {
        Ok(v) => Ok(ratios_view(v@)),
        Err(e) => Err(e),
    }
}

/// Checks a flat vertex sequence of length `len`.
pub fn check_polygon(len: usize) -> (r: Option<PolygonError>)
    ensures
        r == polygon_error_of(len as int),
{
    if len % 2 != 0 {
        Some(PolygonError::OddLength)
    } else if len < 4 {
        Some(PolygonError::TooFewVertices)
    } else {
        None
    }
}

/// Intersects every edge of the closed polygon `vertices1` with every edge
/// of the closed polygon `vertices2`. Each polygon is a flat sequence
/// x0, y0, x1, y1, ... of at least two vertices.
pub fn find_all_intersections(vertices1: &[i32], vertices2: &[i32]) -> (r: Result<
    Vec<Ratio>,
    ScanError,
>)
    ensures
        scan_view(r) == scan_result(vertices1@, vertices2@),
        r matches Ok(v) ==> forall|i: int| 0 <= i < v.len() ==> #[trigger] v[i].den > 0,
{
    if let Some(e) = check_polygon(vertices1.len()) {
        return Err(ScanError::First(e));
    }
    if let Some(e) = check_polygon(vertices2.len()) {
        return Err(ScanError::Second(e));
    }
    let ghost a = vertices1@;
    let ghost b = vertices2@;
    let len1 = vertices1.len();
    let len2 = vertices2.len();
    let n1 = len1 / 2;
    let n2 = len2 / 2;
    let mut out: Vec<Ratio> = Vec::new();
    let mut k: usize = 0;
    while k < n1
        invariant
            a == vertices1@,
            b == vertices2@,
            len1 == a.len(),
            len2 == b.len(),
            polygon_error_of(len1 as int) is None,
            polygon_error_of(len2 as int) is None,
            n1 == edge_count(a),
            n2 == edge_count(b),
            k <= n1,
            ratios_view(out@) == scan_upto(a, b, k as nat),
            forall|i: int| 0 <= i < out.len() ==> #[trigger] out[i].den > 0,
        decreases n1 - k,
    {
        let i = 2 * k;
        let p1 = Point::new(vertices1[i], vertices1[i + 1]);
        let p2 = Point::new(vertices1[(i + 2) % len1], vertices1[(i + 3) % len1]);
        assert(p1 == edge_start(a, k as int));
        assert(p2 == edge_end(a, k as int));
        let mut m: usize = 0;
        while m < n2
            invariant
                a == vertices1@,
                b == vertices2@,
                len1 == a.len(),
                len2 == b.len(),
                polygon_error_of(len2 as int) is None,
                n2 == edge_count(b),
                k < n1,
                m <= n2,
                p1 == edge_start(a, k as int),
                p2 == edge_end(a, k as int),
                ratios_view(out@) == scan_upto(a, b, k as nat) + row_output(a, b, k as int, m as nat),
                forall|i: int| 0 <= i < out.len() ==> #[trigger] out[i].den > 0,
            decreases n2 - m,
        {
            let j = 2 * m;
            let p3 = Point::new(vertices2[j], vertices2[j + 1]);
            let p4 = Point::new(vertices2[(j + 2) % len2], vertices2[(j + 3) % len2]);
            assert(p3 == edge_start(b, m as int));
            assert(p4 == edge_end(b, m as int));
            let ghost before = ratios_view(out@);
            if let Some(c) = find_intersection(&p1, &p2, &p3, &p4) {
                out.push(c.x);
                out.push(c.y);
                assert(ratios_view(out@) =~= before + seq![c.x@, c.y@]);
            }
            assert(ratios_view(out@) =~= scan_upto(a, b, k as nat) + row_output(
                a,
                b,
                k as int,
                (m + 1) as nat,
            ));
            m = m + 1;
        }
        assert(ratios_view(out@) =~= scan_upto(a, b, (k + 1) as nat));
        k = k + 1;
    }
    Ok(out)
}

/// The scan is a function of its inputs alone: two scans of the same two
/// vertex sequences give the same result, point for point.
pub proof fn lemma_scan_deterministic(a1: Seq<i32>, b1: Seq<i32>, a2: Seq<i32>, b2: Seq<i32>)
    requires
        a1 == a2,
        b1 == b2,
    ensures
        scan_result(a1, b1) == scan_result(a2, b2),
{
}

} // verus!
