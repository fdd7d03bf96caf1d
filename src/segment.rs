//! The intersection test for one pair of segments.

use vstd::prelude::*;

verus! {

/// Segments whose direction vectors have a cross product of absolute value
/// below this are treated as parallel and never intersect. On the integer
/// grid this means a cross product of exactly zero.
pub const PARALLEL_TOLERANCE: i128 = 1;

/// A vertex on the integer coordinate grid.
#[derive(Clone, Copy, Debug, PartialEq, Eq, Structural)]
pub struct Point {
    pub x: i32,
    pub y: i32,
}

impl Point {
    pub fn new(x: i32, y: i32) -> (r: Point)
        ensures
            r.x == x,
            r.y == y,
    {
        Point { x, y }
    }
}

/// The exact coordinate `num / den`; the library always gives `den > 0`.
#[derive(Clone, Copy, Debug, PartialEq, Eq, Structural)]
pub struct Ratio {
    pub num: i128,
    pub den: i128,
}

impl View for Ratio {
    type V = (int, int);

    open spec fn view(&self) -> (int, int) {
        (self.num as int, self.den as int)
    }
}

/// An intersection point `(x, y)`, each coordinate an exact fraction.
#[derive(Clone, Copy, Debug, PartialEq, Eq, Structural)]
pub struct Crossing {
    pub x: Ratio,
    pub y: Ratio,
}

impl View for Crossing {
    type V = ((int, int), (int, int));

    open spec fn view(&self) -> ((int, int), (int, int)) {
        (self.x@, self.y@)
    }
}

pub open spec fn abs(v: int) -> int {
    if v < 0 {
        -v
    } else {
        v
    }
}

pub open spec fn sign(v: int) -> int {
    if v < 0 {
        -1
    } else {
        1
    }
}

/// Cross product of the directions of segment A = (p1, p2) and segment
/// B = (p3, p4), in the orientation `(p4 - p3) x (p2 - p1)`.
pub open spec fn denominator(p1: Point, p2: Point, p3: Point, p4: Point) -> int {
    (p4.y - p3.y) * (p2.x - p1.x) - (p4.x - p3.x) * (p2.y - p1.y)
}

/// `numerator_a / denominator` is the position of the crossing of the two
/// lines along segment A (0 at p1, 1 at p2).
pub open spec fn numerator_a(p1: Point, p2: Point, p3: Point, p4: Point) -> int {
    (p4.x - p3.x) * (p1.y - p3.y) - (p4.y - p3.y) * (p1.x - p3.x)
}

/// `numerator_b / denominator` is the position of the crossing of the two
/// lines along segment B (0 at p3, 1 at p4).
pub open spec fn numerator_b(p1: Point, p2: Point, p3: Point, p4: Point) -> int {
    (p2.x - p1.x) * (p1.y - p3.y) - (p2.y - p1.y) * (p1.x - p3.x)
}

/// The two segments are parallel (or collinear) within the tolerance.
pub open spec fn is_parallel(p1: Point, p2: Point, p3: Point, p4: Point) -> bool {
    abs(denominator(p1, p2, p3, p4)) < PARALLEL_TOLERANCE
}

/// The position along segment A, as a numerator over `abs(denominator)`.
pub open spec fn position_a(p1: Point, p2: Point, p3: Point, p4: Point) -> int {
    sign(denominator(p1, p2, p3, p4)) * numerator_a(p1, p2, p3, p4)
}

/// The position along segment B, as a numerator over `abs(denominator)`.
pub open spec fn position_b(p1: Point, p2: Point, p3: Point, p4: Point) -> int {
    sign(denominator(p1, p2, p3, p4)) * numerator_b(p1, p2, p3, p4)
}

/// The fraction `t / d` (with `d > 0`) lies in the closed interval [0, 1].
pub open spec fn in_unit_range(t: int, d: int) -> bool {
    0 <= t <= d
}

/// The point `p + (t / d) * (q - p)` as two fractions over `d`.
pub open spec fn point_along(p: Point, q: Point, t: int, d: int) -> ((int, int), (int, int)) {
    ((p.x * d + t * (q.x - p.x), d), (p.y * d + t * (q.y - p.y), d))
}

/// The intersection of segment A = (p1, p2) with segment B = (p3, p4): none
/// when they are parallel or when the crossing of their lines lies outside
/// either segment (endpoints included), else `p1 + ua * (p2 - p1)`.
pub open spec fn crossing_of(p1: Point, p2: Point, p3: Point, p4: Point) -> Option<
    ((int, int), (int, int)),
> {
    let d = abs(denominator(p1, p2, p3, p4));
    if is_parallel(p1, p2, p3, p4) {
        None
    } else if in_unit_range(position_a(p1, p2, p3, p4), d) && in_unit_range(
        position_b(p1, p2, p3, p4),
        d,
    ) {
        Some(point_along(p1, p2, position_a(p1, p2, p3, p4), d))
    } else {
        None
    }
}

pub open spec fn crossing_view(r: Option<Crossing>) -> Option<((int, int), (int, int))> {
    match r {
        Some(c) => Some(c@),
        None => None,
    }
}

proof fn lemma_mul_bound(a: int, b: int, ba: int, bb: int) by (nonlinear_arith)
    requires
        -ba <= a <= ba,
        -bb <= b <= bb,
    ensures
        -(ba * bb) <= a * b <= ba * bb,
{
}

/// Intersects segment A = (p1, p2) with segment B = (p3, p4).
pub fn find_intersection(p1: &Point, p2: &Point, p3: &Point, p4: &Point) -> (r: Option<Crossing>)
    ensures
        crossing_view(r) == crossing_of(*p1, *p2, *p3, *p4),
        r matches Some(c) ==> c.x.den > 0 && c.y.den == c.x.den,
{
    let x1 = p1.x as i128;
    let y1 = p1.y as i128;
    let x2 = p2.x as i128;
    let y2 = p2.y as i128;
    let x3 = p3.x as i128;
    let y3 = p3.y as i128;
    let x4 = p4.x as i128;
    let y4 = p4.y as i128;
    let dx_a = x2 - x1;
    let dy_a = y2 - y1;
    let dx_b = x4 - x3;
    let dy_b = y4 - y3;
    let dx_ab = x1 - x3;
    let dy_ab = y1 - y3;
    let ghost lim: int = 0x1_0000_0000;
    proof {
        lemma_mul_bound(dy_b as int, dx_a as int, lim, lim);
        lemma_mul_bound(dx_b as int, dy_a as int, lim, lim);
        lemma_mul_bound(dx_b as int, dy_ab as int, lim, lim);
        lemma_mul_bound(dy_b as int, dx_ab as int, lim, lim);
        lemma_mul_bound(dx_a as int, dy_ab as int, lim, lim);
        lemma_mul_bound(dy_a as int, dx_ab as int, lim, lim);
    }
    let den: i128 = dy_b * dx_a - dx_b * dy_a;
    let num_a: i128 = dx_b * dy_ab - dy_b * dx_ab;
    let num_b: i128 = dx_a * dy_ab - dy_a * dx_ab;
    let (d, t_a, t_b) = if den < 0 {
        (-den, -num_a, -num_b)
    } else {
        (den, num_a, num_b)
    };
    if d < PARALLEL_TOLERANCE {
        return None;
    }
    if t_a < 0 || t_a > d || t_b < 0 || t_b > d {
        return None;
    }
    let ghost lim2: int = 0x2_0000_0000_0000_0000;
    proof {
        lemma_mul_bound(x1 as int, d as int, lim, lim2);
        lemma_mul_bound(y1 as int, d as int, lim, lim2);
        lemma_mul_bound(t_a as int, dx_a as int, lim2, lim);
        lemma_mul_bound(t_a as int, dy_a as int, lim2, lim);
    }
    let x = Ratio { num: x1 * d + t_a * dx_a, den: d };
    let y = Ratio { num: y1 * d + t_a * dy_a, den: d };
    Some(Crossing { x, y })
}

/// The point `p + (t / d) * (q - p)`, for some `t / d` in [0, 1], is `c`:
/// `c` lies on the segment from `p` to `q`.
pub open spec fn on_segment(c: ((int, int), (int, int)), p: Point, q: Point) -> bool {
    exists|t: int| in_unit_range(t, c.0.1) && #[trigger] point_along(p, q, t, c.0.1) == c
}

proof fn lemma_expand(f: int, e: int, a: int, c: int, b: int) by (nonlinear_arith)
    ensures
        f * (e * a - c * b) == f * e * a - f * c * b,
        (e * a - c * b) * f == e * a * f - c * b * f,
{
}

proof fn lemma_cross_identity(a: int, b: int, c: int, e: int, f: int, g: int)
    ensures
        f * (e * a - c * b) + (c * g - e * f) * a == (a * g - b * f) * c,
        g * (e * a - c * b) + (c * g - e * f) * b == (a * g - b * f) * e,
{
    lemma_expand(f, e, a, c, b);
    lemma_expand(g, e, a, c, b);
    lemma_expand(a, c, g, e, f);
    lemma_expand(b, c, g, e, f);
    lemma_expand(c, a, g, b, f);
    lemma_expand(e, a, g, b, f);
    assert(f * e * a == e * f * a && f * c * b == b * f * c && c * g * a == a * g * c
        && g * e * a == a * g * e && g * c * b == c * g * b && e * f * b == b * f * e)
        by (nonlinear_arith);
}

/// Where the two lines meet, reached from segment A at `numerator_a / den`
/// and from segment B at `numerator_b / den`, scaled by `den`.
proof fn lemma_lines_meet(p1: Point, p2: Point, p3: Point, p4: Point)
    ensures
        p1.x * denominator(p1, p2, p3, p4) + numerator_a(p1, p2, p3, p4) * (p2.x - p1.x)
            == p3.x * denominator(p1, p2, p3, p4) + numerator_b(p1, p2, p3, p4) * (p4.x - p3.x),
        p1.y * denominator(p1, p2, p3, p4) + numerator_a(p1, p2, p3, p4) * (p2.y - p1.y)
            == p3.y * denominator(p1, p2, p3, p4) + numerator_b(p1, p2, p3, p4) * (p4.y - p3.y),
{
    let den = denominator(p1, p2, p3, p4);
    let (a, b) = (p2.x - p1.x, p2.y - p1.y);
    let (c, e) = (p4.x - p3.x, p4.y - p3.y);
    let (f, g) = (p1.x - p3.x, p1.y - p3.y);
    lemma_cross_identity(a, b, c, e, f, g);
    assert(p1.x * den - p3.x * den == f * den) by (nonlinear_arith)
        requires
            f == p1.x - p3.x,
    ;
    assert(p1.y * den - p3.y * den == g * den) by (nonlinear_arith)
        requires
            g == p1.y - p3.y,
    ;
}

/// The identity above, multiplied through by `s`.
proof fn lemma_scaled(s: int, x1: int, den: int, na: int, dx1: int, x3: int, nb: int, dx3: int)
    requires
        x1 * den + na * dx1 == x3 * den + nb * dx3,
        s == 1 || s == -1,
    ensures
        x1 * (s * den) + (s * na) * dx1 == x3 * (s * den) + (s * nb) * dx3,
{
    if s == -1 {
        assert(s * den == -den && s * na == -na && s * nb == -nb);
        assert(x1 * (-den) == -(x1 * den) && (-na) * dx1 == -(na * dx1) && x3 * (-den) == -(x3
            * den) && (-nb) * dx3 == -(nb * dx3)) by (nonlinear_arith);
    } else {
        assert(s * den == den && s * na == na && s * nb == nb);
    }
}

/// Where the two lines meet, with both positions over `abs(denominator)`.
proof fn lemma_meet_point(p1: Point, p2: Point, p3: Point, p4: Point)
    requires
        !is_parallel(p1, p2, p3, p4),
    ensures
        point_along(p1, p2, position_a(p1, p2, p3, p4), abs(denominator(p1, p2, p3, p4)))
            == point_along(p3, p4, position_b(p1, p2, p3, p4), abs(denominator(p1, p2, p3, p4))),
{
    let den = denominator(p1, p2, p3, p4);
    let na = numerator_a(p1, p2, p3, p4);
    let nb = numerator_b(p1, p2, p3, p4);
    let s = sign(den);
    lemma_lines_meet(p1, p2, p3, p4);
    lemma_scaled(s, p1.x as int, den, na, p2.x - p1.x, p3.x as int, nb, p4.x - p3.x);
    lemma_scaled(s, p1.y as int, den, na, p2.y - p1.y, p3.y as int, nb, p4.y - p3.y);
}

/// Intersection does not depend on which segment comes first: swapping the
/// two segments gives the same point, or none in both orders.
pub proof fn lemma_intersection_symmetric(p1: Point, p2: Point, p3: Point, p4: Point)
    ensures
        crossing_of(p1, p2, p3, p4) == crossing_of(p3, p4, p1, p2),
{
    let den = denominator(p1, p2, p3, p4);
    let na = numerator_a(p1, p2, p3, p4);
    let nb = numerator_b(p1, p2, p3, p4);
    let (x1, x2, x3, x4) = (p1.x as int, p2.x as int, p3.x as int, p4.x as int);
    let (y1, y2, y3, y4) = (p1.y as int, p2.y as int, p3.y as int, p4.y as int);
    assert(denominator(p3, p4, p1, p2) == -den) by (nonlinear_arith)
        requires
            den == (y4 - y3) * (x2 - x1) - (x4 - x3) * (y2 - y1),
            denominator(p3, p4, p1, p2) == (y2 - y1) * (x4 - x3) - (x2 - x1) * (y4 - y3),
    ;
    assert(numerator_a(p3, p4, p1, p2) == -nb) by (nonlinear_arith)
        requires
            nb == (x2 - x1) * (y1 - y3) - (y2 - y1) * (x1 - x3),
            numerator_a(p3, p4, p1, p2) == (x2 - x1) * (y3 - y1) - (y2 - y1) * (x3 - x1),
    ;
    assert(numerator_b(p3, p4, p1, p2) == -na) by (nonlinear_arith)
        requires
            na == (x4 - x3) * (y1 - y3) - (y4 - y3) * (x1 - x3),
            numerator_b(p3, p4, p1, p2) == (x4 - x3) * (y3 - y1) - (y4 - y3) * (x3 - x1),
    ;
    if !is_parallel(p1, p2, p3, p4) {
        if den < 0 {
            assert(sign(denominator(p3, p4, p1, p2)) == 1);
        } else {
            assert(sign(denominator(p3, p4, p1, p2)) == -1);
        }
        assert(position_a(p3, p4, p1, p2) == position_b(p1, p2, p3, p4));
        assert(position_b(p3, p4, p1, p2) == position_a(p1, p2, p3, p4));
        lemma_meet_point(p1, p2, p3, p4);
    }
}

/// A reported point lies on both segments. So two segments that share no
/// point, such as ones whose lines cross beyond the end of either, give none.
pub proof fn lemma_crossing_on_both_segments(p1: Point, p2: Point, p3: Point, p4: Point)
    ensures
        crossing_of(p1, p2, p3, p4) matches Some(c) ==> on_segment(c, p1, p2) && on_segment(
            c,
            p3,
            p4,
        ),
{
    if let Some(c) = crossing_of(p1, p2, p3, p4) {
        lemma_meet_point(p1, p2, p3, p4);
        assert(point_along(p1, p2, position_a(p1, p2, p3, p4), c.0.1) == c);
        assert(point_along(p3, p4, position_b(p1, p2, p3, p4), c.0.1) == c);
    }
}

/// Two segments that are not parallel and share an endpoint meet exactly
/// at that endpoint.
pub proof fn lemma_shared_endpoint(p1: Point, p2: Point, p3: Point, p4: Point, q: Point)
    requires
        p1 == q || p2 == q,
        p3 == q || p4 == q,
        !is_parallel(p1, p2, p3, p4),
    ensures
        crossing_of(p1, p2, p3, p4) == Some(
            (
                (q.x * abs(denominator(p1, p2, p3, p4)), abs(denominator(p1, p2, p3, p4))),
                (q.y * abs(denominator(p1, p2, p3, p4)), abs(denominator(p1, p2, p3, p4))),
            ),
        ),
{
    let den = denominator(p1, p2, p3, p4);
    let na = numerator_a(p1, p2, p3, p4);
    let nb = numerator_b(p1, p2, p3, p4);
    let d = abs(den);
    let (x1, x2, x3, x4) = (p1.x as int, p2.x as int, p3.x as int, p4.x as int);
    let (y1, y2, y3, y4) = (p1.y as int, p2.y as int, p3.y as int, p4.y as int);
    assert(den == (y4 - y3) * (x2 - x1) - (x4 - x3) * (y2 - y1));
    assert(na == (x4 - x3) * (y1 - y3) - (y4 - y3) * (x1 - x3));
    assert(nb == (x2 - x1) * (y1 - y3) - (y2 - y1) * (x1 - x3));
    assert(sign(den) * den == d && sign(den) * 0 == 0);
    if p1 == q {
        if p3 == q {
            assert(na == 0 && nb == 0) by (nonlinear_arith)
                requires
                    x1 == x3 && y1 == y3,
                    na == (x4 - x3) * (y1 - y3) - (y4 - y3) * (x1 - x3),
                    nb == (x2 - x1) * (y1 - y3) - (y2 - y1) * (x1 - x3),
            ;
        } else {
            assert(na == 0 && nb == den) by (nonlinear_arith)
                requires
                    x1 == x4 && y1 == y4,
                    den == (y4 - y3) * (x2 - x1) - (x4 - x3) * (y2 - y1),
                    na == (x4 - x3) * (y1 - y3) - (y4 - y3) * (x1 - x3),
                    nb == (x2 - x1) * (y1 - y3) - (y2 - y1) * (x1 - x3),
            ;
        }
    } else {
        if p3 == q {
            assert(na == den && nb == 0) by (nonlinear_arith)
                requires
                    x2 == x3 && y2 == y3,
                    den == (y4 - y3) * (x2 - x1) - (x4 - x3) * (y2 - y1),
                    na == (x4 - x3) * (y1 - y3) - (y4 - y3) * (x1 - x3),
                    nb == (x2 - x1) * (y1 - y3) - (y2 - y1) * (x1 - x3),
            ;
        } else {
            assert(na == den && nb == den) by (nonlinear_arith)
                requires
                    x2 == x4 && y2 == y4,
                    den == (y4 - y3) * (x2 - x1) - (x4 - x3) * (y2 - y1),
                    na == (x4 - x3) * (y1 - y3) - (y4 - y3) * (x1 - x3),
                    nb == (x2 - x1) * (y1 - y3) - (y2 - y1) * (x1 - x3),
            ;
        }
        assert(x1 * d + d * (x2 - x1) == x2 * d && y1 * d + d * (y2 - y1) == y2 * d)
            by (nonlinear_arith);
    }
}

/// Parallel segments, collinear ones included, never intersect.
pub proof fn lemma_parallel_none(p1: Point, p2: Point, p3: Point, p4: Point)
    requires
        denominator(p1, p2, p3, p4) == 0,
    ensures
        crossing_of(p1, p2, p3, p4) is None,
{
}

} // verus!
