//! Polygon utilities: points in fixed-point coordinates, the shoelace
//! (signed doubled area) sum, and the area-weighted centroid.

use vstd::prelude::*;

verus! {

/// Largest coordinate magnitude the geometry accepts (1000 world units).
pub const COORD_BOUND: i64 = 1_000_000;

/// A 2D point (or vector) in fixed-point coordinates: 1 unit = 1/1000 world unit.
#[derive(Clone, Copy, PartialEq, Eq, Structural, Debug)]
pub struct Point2 {
    pub x: i64,
    pub y: i64,
}

pub open spec fn in_bounds(p: Point2) -> bool {
    -COORD_BOUND <= p.x <= COORD_BOUND && -COORD_BOUND <= p.y <= COORD_BOUND
}

pub open spec fn all_in_bounds(s: Seq<Point2>) -> bool {
    forall|i: int| 0 <= i < s.len() ==> in_bounds(#[trigger] s[i])
}

/// Cross product of the position vectors of `a` and `b` (one shoelace term).
pub open spec fn edge_cross(a: Point2, b: Point2) -> int {
    a.x * b.y - b.x * a.y
}

/// Twice the signed area of the triangle (p, q, r): the cross product of
/// q - p with r - p. Positive when p, q, r turn counter-clockwise.
pub open spec fn orient(p: Point2, q: Point2, r: Point2) -> int {
    (q.x - p.x) * (r.y - p.y) - (q.y - p.y) * (r.x - p.x)
}

/// Index of the successor of vertex `i` on the implicitly closed polygon.
pub open spec fn next_idx(n: int, i: int) -> int {
    if i + 1 == n {
        0
    } else {
        i + 1
    }
}

/// The shoelace term of edge `i`: cross of vertex `i` with its successor.
pub open spec fn shoelace_term(s: Seq<Point2>, i: int) -> int {
    edge_cross(s[i], s[next_idx(s.len() as int, i)])
}

/// Sum of the first `k` shoelace terms.
pub open spec fn shoelace_upto(s: Seq<Point2>, k: int) -> int
    decreases k,
{
    if k <= 0 {
        0
    } else {
        shoelace_upto(s, k - 1) + shoelace_term(s, k - 1)
    }
}

/// Twice the signed area of the polygon `s` (shoelace formula).
pub open spec fn signed_area2(s: Seq<Point2>) -> int {
    shoelace_upto(s, s.len() as int)
}

/// Twice the absolute area of the polygon `s`, independent of winding.
pub open spec fn area2(s: Seq<Point2>) -> int {
    vstd::math::abs(signed_area2(s)) as int
}

/// A polygon this module works on: at least three bounded vertices and a
/// non-zero area.
pub open spec fn wf_polygon(s: Seq<Point2>) -> bool {
    &&& s.len() >= 3
    &&& all_in_bounds(s)
    &&& signed_area2(s) != 0
}

proof fn lemma_edge_cross_bound(a: Point2, b: Point2)
    requires
        in_bounds(a),
        in_bounds(b),
    ensures
        -2_000_000_000_000 <= edge_cross(a, b) <= 2_000_000_000_000,
{
    assert(-1_000_000_000_000 <= a.x * b.y <= 1_000_000_000_000) by (nonlinear_arith)
        requires
            -1_000_000 <= a.x <= 1_000_000,
            -1_000_000 <= b.y <= 1_000_000,
    ;
    assert(-1_000_000_000_000 <= b.x * a.y <= 1_000_000_000_000) by (nonlinear_arith)
        requires
            -1_000_000 <= b.x <= 1_000_000,
            -1_000_000 <= a.y <= 1_000_000,
    ;
}

/// The vertex list of `s` started at vertex `k` instead of vertex 0.
pub open spec fn rotated(s: Seq<Point2>, k: int) -> Seq<Point2>
    recommends
        0 <= k <= s.len(),
{
    s.subrange(k, s.len() as int) + s.subrange(0, k)
}

proof fn lemma_edge_cross_antisym(p: Point2, q: Point2)
    ensures
        edge_cross(p, q) == -edge_cross(q, p),
{
    assert(p.x * q.y - q.x * p.y == -(q.x * p.y - p.x * q.y)) by (nonlinear_arith);
}

proof fn lemma_rot1_index(t: Seq<Point2>, i: int)
    requires
        t.len() >= 1,
        0 <= i < t.len(),
    ensures
        rotated(t, 1).len() == t.len(),
        rotated(t, 1)[i] == t[next_idx(t.len() as int, i)],
{
    let n = t.len() as int;
    assert(t.subrange(1, n).len() == n - 1);
    assert(t.subrange(0, 1).len() == 1);
    if i < n - 1 {
        assert(rotated(t, 1)[i] == t.subrange(1, n)[i]);
        assert(t.subrange(1, n)[i] == t[i + 1]);
    } else {
        assert(rotated(t, 1)[i] == t.subrange(0, 1)[i - (n - 1)]);
        assert(t.subrange(0, 1)[0] == t[0]);
    }
}

proof fn lemma_shoelace_rot1_partial(t: Seq<Point2>, k: int)
    requires
        t.len() >= 2,
        0 <= k <= t.len() - 2,
    ensures
        shoelace_upto(rotated(t, 1), k) == shoelace_upto(t, k + 1) - shoelace_term(t, 0),
    decreases k,
{
    let r = rotated(t, 1);
    let n = t.len() as int;
    if k == 0 {
        assert(shoelace_upto(t, 1) == shoelace_upto(t, 0) + shoelace_term(t, 0));
    } else {
        lemma_shoelace_rot1_partial(t, k - 1);
        lemma_rot1_index(t, k - 1);
        lemma_rot1_index(t, k);
        assert(r[k - 1] == t[k]);
        assert(r[k] == t[k + 1]);
        assert(shoelace_term(r, k - 1) == shoelace_term(t, k));
        assert(shoelace_upto(t, k + 1) == shoelace_upto(t, k) + shoelace_term(t, k));
    }
}

proof fn lemma_area_rot1(t: Seq<Point2>)
    requires
        t.len() >= 1,
    ensures
        signed_area2(rotated(t, 1)) == signed_area2(t),
{
    let r = rotated(t, 1);
    let n = t.len() as int;
    if n == 1 {
        assert(r =~= t);
    } else {
        lemma_shoelace_rot1_partial(t, n - 2);
        lemma_rot1_index(t, n - 2);
        lemma_rot1_index(t, n - 1);
        lemma_rot1_index(t, 0);
        assert(r.len() == n);
        assert(r[n - 2] == t[n - 1]);
        assert(r[n - 1] == t[0]);
        assert(r[0] == t[1]);
        assert(next_idx(n, n - 2) == n - 1);
        assert(next_idx(n, n - 1) == 0);
        assert(shoelace_term(r, n - 2) == edge_cross(r[n - 2], r[n - 1]));
        assert(shoelace_term(t, n - 1) == edge_cross(t[n - 1], t[0]));
        assert(shoelace_term(r, n - 2) == shoelace_term(t, n - 1));
        assert(shoelace_term(r, n - 1) == edge_cross(r[n - 1], r[0]));
        assert(shoelace_term(t, 0) == edge_cross(t[0], t[1]));
        assert(shoelace_term(r, n - 1) == shoelace_term(t, 0));
        assert(shoelace_upto(r, n) == shoelace_upto(r, n - 1) + shoelace_term(r, n - 1));
        assert(shoelace_upto(r, n - 1) == shoelace_upto(r, n - 2) + shoelace_term(r, n - 2));
        assert(shoelace_upto(t, n) == shoelace_upto(t, n - 1) + shoelace_term(t, n - 1));
        assert(signed_area2(r) == shoelace_upto(r, n));
        assert(signed_area2(t) == shoelace_upto(t, n));
    }
}

/// Starting the vertex list at another vertex does not change the signed area.
pub proof fn lemma_signed_area_rotation(s: Seq<Point2>, k: int)
    requires
        0 <= k <= s.len(),
    ensures
        signed_area2(rotated(s, k)) == signed_area2(s),
    decreases k,
{
    if k == 0 {
        assert(rotated(s, 0) =~= s);
    } else {
        lemma_signed_area_rotation(s, k - 1);
        if s.len() == 0 {
            assert(rotated(s, k) =~= s);
        } else {
            assert(rotated(s, k) =~= rotated(rotated(s, k - 1), 1));
            lemma_area_rot1(rotated(s, k - 1));
        }
    }
}

/// Rotating the vertex list leaves the area unchanged.
pub proof fn lemma_area_rotation_invariant(s: Seq<Point2>, k: int)
    requires
        0 <= k <= s.len(),
    ensures
        area2(rotated(s, k)) == area2(s),
{
    lemma_signed_area_rotation(s, k);
}

proof fn lemma_shoelace_reverse_partial(s: Seq<Point2>, k: int)
    requires
        s.len() >= 1,
        0 <= k <= s.len() - 1,
    ensures
        shoelace_upto(s.reverse(), k) == -(shoelace_upto(s, s.len() - 1) - shoelace_upto(
            s,
            s.len() - 1 - k,
        )),
    decreases k,
{
    let r = s.reverse();
    let n = s.len() as int;
    if k > 0 {
        lemma_shoelace_reverse_partial(s, k - 1);
        assert(r[k - 1] == s[n - k]);
        assert(r[k] == s[n - 1 - k]);
        lemma_edge_cross_antisym(s[n - 1 - k], s[n - k]);
        assert(shoelace_term(r, k - 1) == -shoelace_term(s, n - 1 - k));
        assert(shoelace_upto(s, n - k) == shoelace_upto(s, n - 1 - k) + shoelace_term(
            s,
            n - 1 - k,
        ));
    }
}

/// Reversing the winding direction negates the signed area.
pub proof fn lemma_signed_area_reverse(s: Seq<Point2>)
    ensures
        signed_area2(s.reverse()) == -signed_area2(s),
{
    let r = s.reverse();
    let n = s.len() as int;
    if n == 0 {
        assert(r =~= s);
        assert(signed_area2(s) == 0);
    } else if n == 1 {
        assert(r =~= s);
        assert(next_idx(1, 0) == 0);
        assert(shoelace_upto(s, 1) == shoelace_upto(s, 0) + shoelace_term(s, 0));
        assert(shoelace_term(s, 0) == edge_cross(s[0], s[0]));
        assert(edge_cross(s[0], s[0]) == 0);
        assert(signed_area2(s) == 0);
    } else {
        lemma_shoelace_reverse_partial(s, n - 1);
        assert(r.len() == n);
        assert(r[n - 1] == s[0]);
        assert(r[0] == s[n - 1]);
        lemma_edge_cross_antisym(s[n - 1], s[0]);
        assert(next_idx(n, n - 1) == 0);
        assert(shoelace_term(r, n - 1) == edge_cross(r[n - 1], r[0]));
        assert(shoelace_term(s, n - 1) == edge_cross(s[n - 1], s[0]));
        assert(shoelace_term(r, n - 1) == -shoelace_term(s, n - 1));
        assert(shoelace_upto(r, n) == shoelace_upto(r, n - 1) + shoelace_term(r, n - 1));
        assert(shoelace_upto(s, n) == shoelace_upto(s, n - 1) + shoelace_term(s, n - 1));
        assert(signed_area2(r) == shoelace_upto(r, n));
        assert(signed_area2(s) == shoelace_upto(s, n));
    }
}

/// The absolute area is invariant to the winding direction of the vertex list.
pub proof fn lemma_area_winding_invariant(s: Seq<Point2>)
    ensures
        area2(s.reverse()) == area2(s),
{
    lemma_signed_area_reverse(s);
}

/// Quotient of `a` by `b`, rounded toward zero (the machine division).
pub open spec fn trunc_div(a: int, b: int) -> int {
    let q = vstd::math::abs(a) as int / vstd::math::abs(b) as int;
    if (a >= 0) == (b >= 0) {
        q
    } else {
        -q
    }
}

/// A truncating quotient is no larger in magnitude than its dividend.
pub proof fn lemma_trunc_div_bound(a: int, b: int)
    requires
        b != 0,
    ensures
        vstd::math::abs(trunc_div(a, b)) <= vstd::math::abs(a),
{
    let x = vstd::math::abs(a) as int;
    let d = vstd::math::abs(b) as int;
    assert(d >= 1);
    assert(0 <= x / d <= x) by (nonlinear_arith)
        requires
            x >= 0,
            d >= 1,
    ;
}

/// Clamps a coordinate into the accepted range.
pub open spec fn clamp_coord(v: int) -> int {
    if v > COORD_BOUND {
        COORD_BOUND as int
    } else if v < -COORD_BOUND {
        -COORD_BOUND as int
    } else {
        v
    }
}

/// One term of the centroid numerator along x: (xᵢ + xᵢ₊₁) · crossᵢ.
pub open spec fn centroid_term_x(s: Seq<Point2>, i: int) -> int {
    (s[i].x + s[next_idx(s.len() as int, i)].x) * shoelace_term(s, i)
}

/// One term of the centroid numerator along y: (yᵢ + yᵢ₊₁) · crossᵢ.
pub open spec fn centroid_term_y(s: Seq<Point2>, i: int) -> int {
    (s[i].y + s[next_idx(s.len() as int, i)].y) * shoelace_term(s, i)
}

pub open spec fn centroid_sum_x_upto(s: Seq<Point2>, k: int) -> int
    decreases k,
{
    if k <= 0 {
        0
    } else {
        centroid_sum_x_upto(s, k - 1) + centroid_term_x(s, k - 1)
    }
}

pub open spec fn centroid_sum_y_upto(s: Seq<Point2>, k: int) -> int
    decreases k,
{
    if k <= 0 {
        0
    } else {
        centroid_sum_y_upto(s, k - 1) + centroid_term_y(s, k - 1)
    }
}

/// The area-weighted centroid of `s`: Σ(pᵢ+pᵢ₊₁)·crossᵢ / (3·Σcrossᵢ), with
/// each coordinate rounded toward zero and clamped into the coordinate range.
/// For a genuinely convex polygon the exact centroid lies strictly inside the
/// polygon, so the clamp is inert there.
pub open spec fn centroid_of(s: Seq<Point2>) -> Point2 {
    let d = 3 * signed_area2(s);
    Point2 {
        x: clamp_coord(trunc_div(centroid_sum_x_upto(s, s.len() as int), d)) as i64,
        y: clamp_coord(trunc_div(centroid_sum_y_upto(s, s.len() as int), d)) as i64,
    }
}

/// The signed shoelace sum of the polygon, computed exactly.
pub fn polygon_signed_area2(vertices: &Vec<Point2>) -> (r: i128)
    requires
        all_in_bounds(vertices@),
    ensures
        r == signed_area2(vertices@),
        -2_000_000_000_000 * vertices@.len() <= r <= 2_000_000_000_000 * vertices@.len(),
{
    let n = vertices.len();
    let mut sum: i128 = 0;
    let mut i: usize = 0;
    while i < n
        invariant
            n == vertices@.len(),
            0 <= i <= n,
            all_in_bounds(vertices@),
            sum == shoelace_upto(vertices@, i as int),
            -2_000_000_000_000 * (i as int) <= sum <= 2_000_000_000_000 * (i as int),
        decreases n - i,
    {
        let v1 = vertices[i];
        let v2 = vertices[if i + 1 == n {
            0
        } else {
            i + 1
        }];
        proof {
            assert(-1_000_000_000_000 <= (v1.x as int) * (v2.y as int) <= 1_000_000_000_000)
                by (nonlinear_arith)
                requires
                    -1_000_000 <= v1.x <= 1_000_000,
                    -1_000_000 <= v2.y <= 1_000_000,
            ;
            assert(-1_000_000_000_000 <= (v2.x as int) * (v1.y as int) <= 1_000_000_000_000)
                by (nonlinear_arith)
                requires
                    -1_000_000 <= v2.x <= 1_000_000,
                    -1_000_000 <= v1.y <= 1_000_000,
            ;
        }
        sum = sum + (v1.x as i128) * (v2.y as i128) - (v2.x as i128) * (v1.y as i128);
        i = i + 1;
    }
    sum
}

/// Twice the absolute polygon area, via the shoelace formula; the result does
/// not depend on the winding direction of `vertices`.
pub fn polygon_area2(vertices: &Vec<Point2>) -> (r: i128)
    requires
        all_in_bounds(vertices@),
    ensures
        r == area2(vertices@),
{
    let n = vertices.len();
    let s = polygon_signed_area2(vertices);
    if s < 0 {
        -s
    } else {
        s
    }
}

/// Machine division of `a` by `b`, rounding toward zero.
pub(crate) fn div_trunc_i128(a: i128, b: i128) -> (r: i128)
    requires
        b != 0,
        a != i128::MIN,
        b != i128::MIN,
    ensures
        r == trunc_div(a as int, b as int),
        vstd::math::abs(r as int) <= vstd::math::abs(a as int),
{
    let aa: u128 = if a < 0 {
        (-a) as u128
    } else {
        a as u128
    };
    let ba: u128 = if b < 0 {
        (-b) as u128
    } else {
        b as u128
    };
    let q = aa / ba;
    if (a < 0) != (b < 0) {
        -(q as i128)
    } else {
        q as i128
    }
}

/// The area-weighted centroid of the polygon, as `centroid_of` states it.
pub fn compute_polygon_centroid(vertices: &Vec<Point2>) -> (c: Point2)
    requires
        all_in_bounds(vertices@),
        vertices@.len() >= 3,
        signed_area2(vertices@) != 0,
    ensures
        c == centroid_of(vertices@),
        in_bounds(c),
{
    let ghost s = vertices@;
    let n = vertices.len();
    let mut sum_x: i128 = 0;
    let mut sum_y: i128 = 0;
    let mut i: usize = 0;
    while i < n
        invariant
            n == s.len(),
            s == vertices@,
            0 <= i <= n,
            all_in_bounds(s),
            sum_x == centroid_sum_x_upto(s, i as int),
            sum_y == centroid_sum_y_upto(s, i as int),
            -4_000_000_000_000_000_000 * (i as int) <= sum_x <= 4_000_000_000_000_000_000 * (
            i as int),
            -4_000_000_000_000_000_000 * (i as int) <= sum_y <= 4_000_000_000_000_000_000 * (
            i as int),
        decreases n - i,
    {
        let a = vertices[i];
        let b = vertices[if i + 1 == n {
            0
        } else {
            i + 1
        }];
        proof {
            lemma_edge_cross_bound(a, b);
            assert(-1_000_000_000_000 <= (a.x as int) * (b.y as int) <= 1_000_000_000_000)
                by (nonlinear_arith)
                requires
                    -1_000_000 <= a.x <= 1_000_000,
                    -1_000_000 <= b.y <= 1_000_000,
            ;
            assert(-1_000_000_000_000 <= (b.x as int) * (a.y as int) <= 1_000_000_000_000)
                by (nonlinear_arith)
                requires
                    -1_000_000 <= b.x <= 1_000_000,
                    -1_000_000 <= a.y <= 1_000_000,
            ;
        }
        let cross = (a.x as i128) * (b.y as i128) - (b.x as i128) * (a.y as i128);
        proof {
            assert((a.x as int) * (b.y as int) - (b.x as int) * (a.y as int) == edge_cross(a, b));
            assert(-4_000_000_000_000_000_000 <= ((a.x + b.x) as int) * (cross as int)
                <= 4_000_000_000_000_000_000) by (nonlinear_arith)
                requires
                    -2_000_000 <= (a.x + b.x) as int <= 2_000_000,
                    -2_000_000_000_000 <= cross as int <= 2_000_000_000_000,
            ;
            assert(-4_000_000_000_000_000_000 <= ((a.y + b.y) as int) * (cross as int)
                <= 4_000_000_000_000_000_000) by (nonlinear_arith)
                requires
                    -2_000_000 <= (a.y + b.y) as int <= 2_000_000,
                    -2_000_000_000_000 <= cross as int <= 2_000_000_000_000,
            ;
        }
        sum_x = sum_x + ((a.x + b.x) as i128) * cross;
        sum_y = sum_y + ((a.y + b.y) as i128) * cross;
        i = i + 1;
    }
    let area = polygon_signed_area2(vertices);
    let d = 3 * area;
    let cx = div_trunc_i128(sum_x, d);
    let cy = div_trunc_i128(sum_y, d);
    let cxc: i64 = if cx > COORD_BOUND as i128 {
        COORD_BOUND
    } else if cx < -COORD_BOUND as i128 {
        -COORD_BOUND
    } else {
        cx as i64
    };
    let cyc: i64 = if cy > COORD_BOUND as i128 {
        COORD_BOUND
    } else if cy < -COORD_BOUND as i128 {
        -COORD_BOUND
    } else {
        cy as i64
    };
    Point2 { x: cxc, y: cyc }
}

} // verus!
