//! Polygon fragmentation: a convex polygon is fanned into triangles around
//! its centroid, the triangles are merged in pairs into convex hulls, hulls
//! that collapse back to the input vertex set are discarded, and each
//! surviving piece is classified destructible or inert by an area threshold.

use vstd::prelude::*;

use crate::geom::{
    all_in_bounds, area2, centroid_of, compute_polygon_centroid, edge_cross, in_bounds, next_idx,
    orient, polygon_area2, polygon_signed_area2, signed_area2, shoelace_term, shoelace_upto,
    wf_polygon, Point2,
};

verus! {

/// Twice the area (in fixed-point units) above which a fragment is
/// destructible: 8.0 world units of area.
pub const DESTRUCTIBLE_AREA2: i128 = 16_000_000;

/// One fragment of a subdivided polygon, tagged by the area threshold.
pub struct ClassifiedPolygon {
    pub vertices: Vec<Point2>,
    pub destructible: bool,
}

/// Twice the signed area of the `i`-th fan triangle around `c`.
pub open spec fn fan_term(c: Point2, s: Seq<Point2>, i: int) -> int {
    orient(c, s[i], s[next_idx(s.len() as int, i)])
}

/// Sum of the first `k` fan triangle terms.
pub open spec fn fan_sum_upto(c: Point2, s: Seq<Point2>, k: int) -> int
    decreases k,
{
    if k <= 0 {
        0
    } else {
        fan_sum_upto(c, s, k - 1) + fan_term(c, s, k - 1)
    }
}

proof fn lemma_orient_expand(c: Point2, a: Point2, b: Point2)
    ensures
        orient(c, a, b) == edge_cross(c, a) + edge_cross(a, b) + edge_cross(b, c),
{
    assert((a.x - c.x) * (b.y - c.y) - (a.y - c.y) * (b.x - c.x) == (c.x * a.y - a.x * c.y) + (a.x
        * b.y - b.x * a.y) + (b.x * c.y - c.x * b.y)) by (nonlinear_arith);
}

proof fn lemma_fan_sum_partial(c: Point2, s: Seq<Point2>, k: int)
    requires
        s.len() >= 2,
        1 <= k <= s.len() - 1,
    ensures
        fan_sum_upto(c, s, k) == shoelace_upto(s, k) + edge_cross(c, s[0]) + edge_cross(s[k], c),
    decreases k,
{
    let n = s.len() as int;
    lemma_orient_expand(c, s[k - 1], s[k]);
    assert(next_idx(n, k - 1) == k);
    assert(fan_term(c, s, k - 1) == edge_cross(c, s[k - 1]) + edge_cross(s[k - 1], s[k])
        + edge_cross(s[k], c));
    assert(shoelace_term(s, k - 1) == edge_cross(s[k - 1], s[k]));
    assert(fan_sum_upto(c, s, k) == fan_sum_upto(c, s, k - 1) + fan_term(c, s, k - 1));
    assert(shoelace_upto(s, k) == shoelace_upto(s, k - 1) + shoelace_term(s, k - 1));
    if k == 1 {
        assert(fan_sum_upto(c, s, 0) == 0);
        assert(shoelace_upto(s, 0) == 0);
    } else {
        lemma_fan_sum_partial(c, s, k - 1);
        assert(edge_cross(s[k - 1], c) + edge_cross(c, s[k - 1]) == 0);
    }
}

/// The fan around any point partitions the signed area: the fan triangle
/// terms over all edges sum to the polygon's shoelace sum.
pub proof fn lemma_fan_total(c: Point2, s: Seq<Point2>)
    requires
        s.len() >= 2,
    ensures
        fan_sum_upto(c, s, s.len() as int) == signed_area2(s),
{
    let n = s.len() as int;
    lemma_fan_sum_partial(c, s, n - 1);
    lemma_orient_expand(c, s[n - 1], s[0]);
    assert(next_idx(n, n - 1) == 0);
    assert(fan_term(c, s, n - 1) == edge_cross(c, s[n - 1]) + edge_cross(s[n - 1], s[0])
        + edge_cross(s[0], c));
    assert(shoelace_term(s, n - 1) == edge_cross(s[n - 1], s[0]));
    assert(edge_cross(s[n - 1], c) + edge_cross(c, s[n - 1]) == 0);
    assert(edge_cross(s[0], c) + edge_cross(c, s[0]) == 0);
    assert(signed_area2(s) == shoelace_upto(s, n - 1) + shoelace_term(s, n - 1));
}

/// Twice the signed area of a triangle written as a vertex list.
pub proof fn lemma_area2_triangle(p: Point2, q: Point2, r: Point2)
    ensures
        signed_area2(seq![p, q, r]) == orient(p, q, r),
{
    let s = seq![p, q, r];
    assert(shoelace_upto(s, 3) == shoelace_upto(s, 2) + shoelace_term(s, 2));
    assert(shoelace_upto(s, 2) == shoelace_upto(s, 1) + shoelace_term(s, 1));
    assert(shoelace_upto(s, 1) == shoelace_upto(s, 0) + shoelace_term(s, 0));
    assert(shoelace_term(s, 0) == edge_cross(p, q));
    assert(shoelace_term(s, 1) == edge_cross(q, r));
    assert(shoelace_term(s, 2) == edge_cross(r, p));
    lemma_orient_expand(p, q, r);
    assert(orient(p, q, r) == edge_cross(p, q) + edge_cross(q, r) + edge_cross(r, p));
}

/// Twice the signed area of the quadrilateral (c, a, b, d): the two fan
/// triangles (c, a, b) and (c, b, d) together.
pub proof fn lemma_area2_quad(c: Point2, a: Point2, b: Point2, d: Point2)
    ensures
        signed_area2(seq![c, a, b, d]) == orient(c, a, b) + orient(c, b, d),
{
    let s = seq![c, a, b, d];
    assert(shoelace_upto(s, 4) == shoelace_upto(s, 3) + shoelace_term(s, 3));
    assert(shoelace_upto(s, 3) == shoelace_upto(s, 2) + shoelace_term(s, 2));
    assert(shoelace_upto(s, 2) == shoelace_upto(s, 1) + shoelace_term(s, 1));
    assert(shoelace_upto(s, 1) == shoelace_upto(s, 0) + shoelace_term(s, 0));
    assert(shoelace_term(s, 0) == edge_cross(c, a));
    assert(shoelace_term(s, 1) == edge_cross(a, b));
    assert(shoelace_term(s, 2) == edge_cross(b, d));
    assert(shoelace_term(s, 3) == edge_cross(d, c));
    lemma_orient_expand(c, a, b);
    lemma_orient_expand(c, b, d);
    assert(edge_cross(b, c) + edge_cross(c, b) == 0);
}

/// The triangle (a, b, d) is the two fan triangles less the triangle (c, a, d).
pub proof fn lemma_orient_chord(c: Point2, a: Point2, b: Point2, d: Point2)
    ensures
        orient(a, b, d) == orient(c, a, b) + orient(c, b, d) - orient(c, a, d),
{
    assert((b.x - a.x) * (d.y - a.y) - (b.y - a.y) * (d.x - a.x) == ((a.x - c.x) * (b.y - c.y) - (
    a.y - c.y) * (b.x - c.x)) + ((b.x - c.x) * (d.y - c.y) - (b.y - c.y) * (d.x - c.x)) - ((a.x
        - c.x) * (d.y - c.y) - (a.y - c.y) * (d.x - c.x))) by (nonlinear_arith);
}

/// The merged convex hull of the pair of fan triangles (c, a, b) and
/// (c, b, d): a convex quadrilateral when `c` is separated from the chord
/// a–d, the triangle (a, b, d) when `c` lies on or inside it, and the
/// triangle (c, a, d) when `b` falls inside. Pairs whose fan triangles are
/// degenerate or wrongly wound count as failed hull constructions and yield
/// nothing.
pub open spec fn merged_pair(c: Point2, a: Point2, b: Point2, d: Point2) -> Option<Seq<Point2>> {
    let t1 = orient(c, a, b);
    let t2 = orient(c, b, d);
    let f = orient(c, a, d);
    if t1 > 0 && t2 > 0 {
        if f > 0 && orient(a, b, d) > 0 {
            Some(seq![c, a, b, d])
        } else if f <= 0 {
            Some(seq![a, b, d])
        } else {
            Some(seq![c, a, d])
        }
    } else {
        None
    }
}

/// The hull of an unpaired final fan triangle: the triangle itself, wound
/// counter-clockwise, or nothing if it is degenerate.
pub open spec fn merged_single(c: Point2, a: Point2, b: Point2) -> Option<Seq<Point2>> {
    let t = orient(c, a, b);
    if t > 0 {
        Some(seq![c, a, b])
    } else if t < 0 {
        Some(seq![c, b, a])
    } else {
        None
    }
}

/// How many pairs the fan of an `n`-gon is chunked into (a final odd
/// triangle stands alone).
pub open spec fn num_chunks(n: int) -> int {
    (n + 1) / 2
}

/// The merged hull of chunk `k` of the fan around `c`.
pub open spec fn merged_at(c: Point2, s: Seq<Point2>, k: int) -> Option<Seq<Point2>> {
    let n = s.len() as int;
    if 2 * k + 1 < n {
        merged_pair(c, s[2 * k], s[2 * k + 1], s[next_idx(n, 2 * k + 1)])
    } else {
        merged_single(c, s[n - 1], s[0])
    }
}

/// Whether two vertex lists carry the same unordered set of points.
pub open spec fn same_vertex_set(h: Seq<Point2>, s: Seq<Point2>) -> bool {
    h.to_set() == s.to_set()
}

/// The kept hulls of the first `k` chunks: failed hulls are dropped, and so
/// is any hull whose vertex set equals the polygon's own.
pub open spec fn subdivided_upto(c: Point2, s: Seq<Point2>, k: int) -> Seq<Seq<Point2>>
    decreases k,
{
    if k <= 0 {
        Seq::empty()
    } else {
        let rest = subdivided_upto(c, s, k - 1);
        match merged_at(c, s, k - 1) {
            None => rest,
            Some(h) => if same_vertex_set(h, s) {
                rest
            } else {
                rest.push(h)
            },
        }
    }
}

/// The vertex list wound counter-clockwise.
pub open spec fn norm_ccw(s: Seq<Point2>) -> Seq<Point2> {
    if signed_area2(s) >= 0 {
        s
    } else {
        s.reverse()
    }
}

/// What `subdivide` produces for the polygon `s`.
pub open spec fn spec_subdivide(s: Seq<Point2>) -> Seq<Seq<Point2>> {
    let c = centroid_of(s);
    let t = norm_ccw(s);
    subdivided_upto(c, t, num_chunks(t.len() as int))
}

proof fn lemma_orient_swap(c: Point2, a: Point2, b: Point2)
    ensures
        orient(c, b, a) == -orient(c, a, b),
{
    assert((b.x - c.x) * (a.y - c.y) - (b.y - c.y) * (a.x - c.x) == -((a.x - c.x) * (b.y - c.y) - (
    a.y - c.y) * (b.x - c.x))) by (nonlinear_arith);
}

fn orient_exec(p: Point2, q: Point2, r: Point2) -> (o: i64)
    requires
        in_bounds(p),
        in_bounds(q),
        in_bounds(r),
    ensures
        o == orient(p, q, r),
{
    proof {
        assert(-4_000_000_000_000 <= ((q.x - p.x) as int) * ((r.y - p.y) as int)
            <= 4_000_000_000_000) by (nonlinear_arith)
            requires
                -2_000_000 <= (q.x - p.x) as int <= 2_000_000,
                -2_000_000 <= (r.y - p.y) as int <= 2_000_000,
        ;
        assert(-4_000_000_000_000 <= ((q.y - p.y) as int) * ((r.x - p.x) as int)
            <= 4_000_000_000_000) by (nonlinear_arith)
            requires
                -2_000_000 <= (q.y - p.y) as int <= 2_000_000,
                -2_000_000 <= (r.x - p.x) as int <= 2_000_000,
        ;
    }
    (q.x - p.x) * (r.y - p.y) - (q.y - p.y) * (r.x - p.x)
}

fn contains_point(v: &Vec<Point2>, p: Point2) -> (r: bool)
    ensures
        r == v@.contains(p),
{
    let n = v.len();
    let mut i: usize = 0;
    while i < n
        invariant
            n == v@.len(),
            0 <= i <= n,
            forall|j: int| 0 <= j < i ==> v@[j] != p,
        decreases n - i,
    {
        if v[i].x == p.x && v[i].y == p.y {
            proof {
                assert(v@[i as int] == p);
            }
            return true;
        }
        i = i + 1;
    }
    proof {
        assert(!v@.contains(p));
    }
    false
}

fn same_vertex_set_exec(h: &Vec<Point2>, s: &Vec<Point2>) -> (r: bool)
    ensures
        r == same_vertex_set(h@, s@),
{
    let mut i: usize = 0;
    let nh = h.len();
    while i < nh
        invariant
            nh == h@.len(),
            0 <= i <= nh,
            forall|j: int| 0 <= j < i ==> s@.contains(#[trigger] h@[j]),
        decreases nh - i,
    {
        if !contains_point(s, h[i]) {
            proof {
                assert(h@.to_set().contains(h@[i as int]));
                assert(!s@.to_set().contains(h@[i as int]));
            }
            return false;
        }
        i = i + 1;
    }
    let mut j: usize = 0;
    let ns = s.len();
    while j < ns
        invariant
            nh == h@.len(),
            ns == s@.len(),
            0 <= j <= ns,
            forall|k: int| 0 <= k < nh ==> s@.contains(#[trigger] h@[k]),
            forall|k: int| 0 <= k < j ==> h@.contains(#[trigger] s@[k]),
        decreases ns - j,
    {
        if !contains_point(h, s[j]) {
            proof {
                assert(s@.to_set().contains(s@[j as int]));
                assert(!h@.to_set().contains(s@[j as int]));
            }
            return false;
        }
        j = j + 1;
    }
    proof {
        assert(h@.to_set() =~= s@.to_set());
    }
    true
}

pub(crate) fn copy_points(v: &Vec<Point2>) -> (r: Vec<Point2>)
    ensures
        r@ == v@,
{
    let n = v.len();
    let mut r: Vec<Point2> = Vec::new();
    let mut i: usize = 0;
    while i < n
        invariant
            n == v@.len(),
            0 <= i <= n,
            r@ == v@.subrange(0, i as int),
        decreases n - i,
    {
        r.push(v[i]);
        proof {
            assert(r@ =~= v@.subrange(0, i + 1));
        }
        i = i + 1;
    }
    proof {
        assert(r@ =~= v@);
    }
    r
}

fn reverse_points(v: &Vec<Point2>) -> (r: Vec<Point2>)
    ensures
        r@ == v@.reverse(),
{
    let n = v.len();
    let mut r: Vec<Point2> = Vec::new();
    let mut i: usize = 0;
    while i < n
        invariant
            n == v@.len(),
            0 <= i <= n,
            r@.len() == i,
            forall|j: int| 0 <= j < i ==> r@[j] == v@[n - 1 - j],
        decreases n - i,
    {
        r.push(v[n - 1 - i]);
        i = i + 1;
    }
    proof {
        assert(r@ =~= v@.reverse());
    }
    r
}

/// The fan of triangles (centroid, pᵢ, pᵢ₊₁), one per edge of the polygon.
pub fn create_triangles_using_centroid(centroid: Point2, vertices: &Vec<Point2>) -> (ts: Vec<
    (Point2, Point2, Point2),
>)
    requires
        vertices@.len() >= 1,
    ensures
        ts@.len() == vertices@.len(),
        forall|i: int|
            0 <= i < ts@.len() ==> ts@[i] == (
                centroid,
                vertices@[i],
                vertices@[next_idx(vertices@.len() as int, i)],
            ),
{
    let n = vertices.len();
    let mut ts: Vec<(Point2, Point2, Point2)> = Vec::new();
    let mut i: usize = 0;
    while i < n
        invariant
            n == vertices@.len(),
            0 <= i <= n,
            n >= 1,
            ts@.len() == i,
            forall|j: int|
                0 <= j < i ==> ts@[j] == (
                    centroid,
                    vertices@[j],
                    vertices@[next_idx(vertices@.len() as int, j)],
                ),
        decreases n - i,
    {
        let j = if i + 1 == n {
            0
        } else {
            i + 1
        };
        ts.push((centroid, vertices[i], vertices[j]));
        i = i + 1;
    }
    ts
}

proof fn lemma_reverse_same_set(s: Seq<Point2>)
    ensures
        s.reverse().to_set() == s.to_set(),
{
    let r = s.reverse();
    assert forall|p: Point2| r.to_set().contains(p) implies s.to_set().contains(p) by {
        let i = choose|i: int| 0 <= i < r.len() && r[i] == p;
        assert(s[s.len() - 1 - i] == p);
        assert(s.contains(p));
    };
    assert forall|p: Point2| s.to_set().contains(p) implies r.to_set().contains(p) by {
        let i = choose|i: int| 0 <= i < s.len() && s[i] == p;
        assert(r[s.len() - 1 - i] == p);
        assert(r.contains(p));
    };
    assert(r.to_set() =~= s.to_set());
}

/// Splits the polygon into smaller convex pieces: a fan of triangles around
/// the area-weighted centroid, merged in pairs into convex hulls. A hull
/// whose construction fails (degenerate point set) is dropped silently, and
/// so is a hull whose vertex set equals the input polygon's own.
pub fn subdivide(vertices: &Vec<Point2>) -> (r: Vec<Vec<Point2>>)
    requires
        wf_polygon(vertices@),
    ensures
        r@.len() == spec_subdivide(vertices@).len(),
        forall|i: int| 0 <= i < r@.len() ==> #[trigger] r@[i]@ == spec_subdivide(vertices@)[i],
        forall|i: int|
            0 <= i < r@.len() ==> wf_polygon(#[trigger] r@[i]@) && 3 <= r@[i]@.len() <= 4
                && signed_area2(r@[i]@) > 0,
        forall|i: int| 0 <= i < r@.len() ==> !same_vertex_set(#[trigger] r@[i]@, vertices@),
{
    let ghost s = vertices@;
    let centroid = compute_polygon_centroid(vertices);
    let area = polygon_signed_area2(vertices);
    let norm: Vec<Point2> = if area < 0 {
        reverse_points(vertices)
    } else {
        copy_points(vertices)
    };
    let ghost t = norm_ccw(s);
    let n = norm.len();
    proof {
        assert(norm@ == t);
        if area < 0 {
            crate::geom::lemma_signed_area_reverse(s);
            lemma_reverse_same_set(s);
            assert forall|i: int| 0 <= i < t.len() implies in_bounds(#[trigger] t[i]) by {
                assert(t[i] == s[s.len() - 1 - i]);
            };
        }
        assert(signed_area2(t) > 0);
        assert(all_in_bounds(t));
        assert(t.to_set() == s.to_set());
        assert(n == s.len());
    }
    let triangles = create_triangles_using_centroid(centroid, &norm);
    let nch: usize = n / 2 + n % 2;
    proof {
        assert(nch == num_chunks(n as int));
    }
    let mut result: Vec<Vec<Point2>> = Vec::new();
    let mut k: usize = 0;
    while k < nch
        invariant
            s == vertices@,
            wf_polygon(s),
            t == norm_ccw(s),
            norm@ == t,
            n == t.len(),
            n >= 3,
            centroid == centroid_of(s),
            in_bounds(centroid),
            all_in_bounds(t),
            signed_area2(t) > 0,
            t.to_set() == s.to_set(),
            nch == num_chunks(n as int),
            0 <= k <= nch,
            triangles@.len() == n,
            forall|i: int|
                0 <= i < n ==> triangles@[i] == (centroid, t[i], t[next_idx(n as int, i)]),
            result@.len() == subdivided_upto(centroid, t, k as int).len(),
            forall|i: int|
                0 <= i < result@.len() ==> #[trigger] result@[i]@ == subdivided_upto(
                    centroid,
                    t,
                    k as int,
                )[i],
            forall|i: int|
                0 <= i < result@.len() ==> wf_polygon(#[trigger] result@[i]@) && 3
                    <= result@[i]@.len() <= 4 && signed_area2(result@[i]@) > 0,
            forall|i: int|
                0 <= i < result@.len() ==> !same_vertex_set(#[trigger] result@[i]@, s),
        decreases nch - k,
    {
        let two_k = 2 * k;
        let tri1 = triangles[two_k];
        let a = tri1.1;
        let b = tri1.2;
        let mut keep: Option<Vec<Point2>> = None;
        if two_k + 1 < n {
            let tri2 = triangles[two_k + 1];
            let d = tri2.2;
            proof {
                assert(a == t[two_k as int]);
                assert(next_idx(n as int, two_k as int) == two_k + 1);
                assert(b == t[two_k + 1]);
                assert(d == t[next_idx(n as int, two_k + 1)]);
            }
            let t1 = orient_exec(centroid, a, b);
            let t2 = orient_exec(centroid, b, d);
            let f = orient_exec(centroid, a, d);
            let g = orient_exec(a, b, d);
            if t1 > 0 && t2 > 0 {
                let mut h: Vec<Point2> = Vec::new();
                if f > 0 && g > 0 {
                    h.push(centroid);
                    h.push(a);
                    h.push(b);
                    h.push(d);
                    proof {
                        assert(h@ =~= seq![centroid, a, b, d]);
                        lemma_area2_quad(centroid, a, b, d);
                    }
                } else if f <= 0 {
                    h.push(a);
                    h.push(b);
                    h.push(d);
                    proof {
                        assert(h@ =~= seq![a, b, d]);
                        lemma_area2_triangle(a, b, d);
                        lemma_orient_chord(centroid, a, b, d);
                    }
                } else {
                    h.push(centroid);
                    h.push(a);
                    h.push(d);
                    proof {
                        assert(h@ =~= seq![centroid, a, d]);
                        lemma_area2_triangle(centroid, a, d);
                    }
                }
                proof {
                    assert(merged_at(centroid, t, k as int) == Some(h@));
                    assert(signed_area2(h@) > 0);
                }
                keep = Some(h);
            } else {
                proof {
                    assert(merged_at(centroid, t, k as int) is None);
                }
            }
        } else {
            proof {
                assert(two_k == n - 1);
                assert(a == t[n - 1]);
                assert(next_idx(n as int, n - 1) == 0);
                assert(b == t[0]);
            }
            let tt = orient_exec(centroid, a, b);
            if tt > 0 {
                let mut h: Vec<Point2> = Vec::new();
                h.push(centroid);
                h.push(a);
                h.push(b);
                proof {
                    assert(h@ =~= seq![centroid, a, b]);
                    lemma_area2_triangle(centroid, a, b);
                    assert(merged_at(centroid, t, k as int) == Some(h@));
                    assert(signed_area2(h@) > 0);
                }
                keep = Some(h);
            } else if tt < 0 {
                let mut h: Vec<Point2> = Vec::new();
                h.push(centroid);
                h.push(b);
                h.push(a);
                proof {
                    assert(h@ =~= seq![centroid, b, a]);
                    lemma_area2_triangle(centroid, b, a);
                    lemma_orient_swap(centroid, a, b);
                    assert(merged_at(centroid, t, k as int) == Some(h@));
                    assert(signed_area2(h@) > 0);
                }
                keep = Some(h);
            } else {
                proof {
                    assert(merged_at(centroid, t, k as int) is None);
                }
            }
        }
        match keep {
            None => {
                proof {
                    assert(subdivided_upto(centroid, t, k + 1) == subdivided_upto(
                        centroid,
                        t,
                        k as int,
                    ));
                }
            },
            Some(h) => {
                let same = same_vertex_set_exec(&h, &norm);
                proof {
                    assert(merged_at(centroid, t, k as int) == Some(h@));
                }
                if !same {
                    proof {
                        assert(subdivided_upto(centroid, t, k + 1) == subdivided_upto(
                            centroid,
                            t,
                            k as int,
                        ).push(h@));
                        assert(all_in_bounds(h@));
                        assert(wf_polygon(h@));
                        assert(!same_vertex_set(h@, s));
                    }
                    result.push(h);
                } else {
                    proof {
                        assert(subdivided_upto(centroid, t, k + 1) == subdivided_upto(
                            centroid,
                            t,
                            k as int,
                        ));
                    }
                }
            },
        }
        k = k + 1;
    }
    proof {
        assert(subdivided_upto(centroid, t, nch as int) == spec_subdivide(s));
    }
    result
}

/// Subdivides the polygon and classifies every surviving piece: a fragment
/// is destructible exactly when twice its area reaches `DESTRUCTIBLE_AREA2`;
/// every other fragment is inert debris. No piece is both or neither.
pub fn fragment(vertices: &Vec<Point2>) -> (r: Vec<ClassifiedPolygon>)
    requires
        wf_polygon(vertices@),
    ensures
        r@.len() == spec_subdivide(vertices@).len(),
        forall|i: int|
            0 <= i < r@.len() ==> #[trigger] r@[i].vertices@ == spec_subdivide(vertices@)[i],
        forall|i: int|
            0 <= i < r@.len() ==> (#[trigger] r@[i].destructible <==> area2(
                spec_subdivide(vertices@)[i],
            ) >= DESTRUCTIBLE_AREA2),
        forall|i: int|
            0 <= i < r@.len() ==> wf_polygon(#[trigger] r@[i].vertices@) && !same_vertex_set(
                r@[i].vertices@,
                vertices@,
            ),
{
    let parts = subdivide(vertices);
    let mut out: Vec<ClassifiedPolygon> = Vec::new();
    let m = parts.len();
    let mut i: usize = 0;
    while i < m
        invariant
            wf_polygon(vertices@),
            m == parts@.len(),
            m == spec_subdivide(vertices@).len(),
            forall|j: int|
                0 <= j < m ==> #[trigger] parts@[j]@ == spec_subdivide(vertices@)[j],
            forall|j: int|
                0 <= j < m ==> wf_polygon(#[trigger] parts@[j]@) && !same_vertex_set(
                    parts@[j]@,
                    vertices@,
                ),
            0 <= i <= m,
            out@.len() == i,
            forall|j: int|
                0 <= j < i ==> #[trigger] out@[j].vertices@ == spec_subdivide(vertices@)[j],
            forall|j: int|
                0 <= j < i ==> (#[trigger] out@[j].destructible <==> area2(
                    spec_subdivide(vertices@)[j],
                ) >= DESTRUCTIBLE_AREA2),
            forall|j: int|
                0 <= j < i ==> wf_polygon(#[trigger] out@[j].vertices@) && !same_vertex_set(
                    out@[j].vertices@,
                    vertices@,
                ),
        decreases m - i,
    {
        let verts = copy_points(&parts[i]);
        let a2 = polygon_area2(&verts);
        let destructible = a2 >= DESTRUCTIBLE_AREA2;
        out.push(ClassifiedPolygon { vertices: verts, destructible });
        i = i + 1;
    }
    out
}

/// Strict counter-clockwise convexity: every three cyclically consecutive
/// vertices turn left.
pub open spec fn is_convex_ccw(s: Seq<Point2>) -> bool {
    let n = s.len() as int;
    &&& s.len() >= 3
    &&& forall|i: int|
        0 <= i < n ==> #[trigger] orient(s[i], s[next_idx(n, i)], s[next_idx(n, next_idx(n, i))])
            > 0
}

/// Every fan triangle around the point `c` is wound strictly
/// counter-clockwise: `c` lies strictly inside the polygon.
pub open spec fn fan_positive(c: Point2, s: Seq<Point2>) -> bool {
    forall|i: int| 0 <= i < s.len() ==> #[trigger] fan_term(c, s, i) > 0
}

/// The computed centroid lies strictly inside the polygon.
pub open spec fn centroid_inside(s: Seq<Point2>) -> bool {
    fan_positive(centroid_of(s), s)
}

/// The point `c` is not cut off by any chord a–d of a merged pair: each
/// merged pair of fan triangles then hulls to a piece of exactly their area.
pub open spec fn pairs_separated_from(c: Point2, s: Seq<Point2>) -> bool {
    let n = s.len() as int;
    forall|k: int|
        0 <= k && 2 * k + 1 < n ==> #[trigger] orient(c, s[2 * k], s[next_idx(n, 2 * k + 1)])
            >= 0
}

/// The computed centroid is not cut off by any merged pair's chord.
pub open spec fn pairs_separated(s: Seq<Point2>) -> bool {
    pairs_separated_from(centroid_of(s), s)
}

/// Total doubled absolute area of a list of fragments.
pub open spec fn sum_area2(frs: Seq<Seq<Point2>>) -> int
    decreases frs.len(),
{
    if frs.len() == 0 {
        0
    } else {
        sum_area2(frs.drop_last()) + area2(frs.last())
    }
}

proof fn lemma_orient_degenerate(c: Point2, w: Point2)
    ensures
        orient(c, c, w) == 0,
{
    assert((c.x - c.x) * (w.y - c.y) - (c.y - c.y) * (w.x - c.x) == 0) by (nonlinear_arith);
}

proof fn lemma_fan_sum_pos(c: Point2, s: Seq<Point2>, k: int)
    requires
        fan_positive(c, s),
        0 <= k <= s.len(),
    ensures
        fan_sum_upto(c, s, k) >= 0,
        k > 0 ==> fan_sum_upto(c, s, k) > 0,
    decreases k,
{
    if k > 0 {
        lemma_fan_sum_pos(c, s, k - 1);
    }
}

proof fn lemma_center_not_vertex_set(c: Point2, s: Seq<Point2>)
    requires
        fan_positive(c, s),
    ensures
        !s.to_set().contains(c),
{
    if s.to_set().contains(c) {
        let j = choose|j: int| 0 <= j < s.len() && s[j] == c;
        lemma_orient_degenerate(c, s[next_idx(s.len() as int, j)]);
        assert(fan_term(c, s, j) == 0);
    }
}

proof fn lemma_partition_chunks(c: Point2, s: Seq<Point2>, k: int)
    requires
        s.len() >= 4,
        s.no_duplicates(),
        is_convex_ccw(s),
        fan_positive(c, s),
        pairs_separated_from(c, s),
        0 <= k <= num_chunks(s.len() as int),
    ensures
        sum_area2(subdivided_upto(c, s, k)) == fan_sum_upto(
            c,
            s,
            if 2 * k <= s.len() {
                2 * k
            } else {
                s.len() as int
            },
        ),
    decreases k,
{
    let n = s.len() as int;
    if k == 0 {
    } else {
        lemma_partition_chunks(c, s, k - 1);
        let j = k - 1;
        let prev = subdivided_upto(c, s, j);
        if 2 * j + 1 < n {
            let a = s[2 * j];
            let b = s[2 * j + 1];
            let d = s[next_idx(n, 2 * j + 1)];
            assert(next_idx(n, 2 * j) == 2 * j + 1);
            assert(fan_term(c, s, 2 * j) > 0);
            assert(fan_term(c, s, 2 * j + 1) > 0);
            let t1 = orient(c, a, b);
            let t2 = orient(c, b, d);
            assert(t1 == fan_term(c, s, 2 * j));
            assert(t2 == fan_term(c, s, 2 * j + 1));
            let f = orient(c, a, d);
            assert(f >= 0);
            let g = orient(a, b, d);
            assert(orient(s[2 * j], s[next_idx(n, 2 * j)], s[next_idx(n, next_idx(n, 2 * j))])
                > 0);
            assert(g > 0);
            lemma_orient_chord(c, a, b, d);
            let h = if f > 0 {
                seq![c, a, b, d]
            } else {
                seq![a, b, d]
            };
            if f > 0 {
                assert(merged_at(c, s, j) == Some(h));
                lemma_area2_quad(c, a, b, d);
                assert(signed_area2(h) == t1 + t2);
                assert(area2(h) == t1 + t2);
                assert(h[0] == c);
                assert(h.to_set().contains(c));
                lemma_center_not_vertex_set(c, s);
                assert(!same_vertex_set(h, s));
            } else {
                assert(merged_at(c, s, j) == Some(h));
                lemma_area2_triangle(a, b, d);
                assert(signed_area2(h) == t1 + t2 - f);
                assert(area2(h) == t1 + t2);
                h.lemma_cardinality_of_set();
                s.unique_seq_to_set();
                assert(h.to_set().len() <= 3);
                assert(s.to_set().len() >= 4);
                assert(!same_vertex_set(h, s));
            }
            assert(subdivided_upto(c, s, k) == prev.push(h));
            assert(prev.push(h).drop_last() =~= prev);
            assert(prev.push(h).last() == h);
            assert(sum_area2(prev.push(h)) == sum_area2(prev) + area2(h));
            assert(fan_sum_upto(c, s, 2 * j + 2) == fan_sum_upto(c, s, 2 * j + 1) + fan_term(
                c,
                s,
                2 * j + 1,
            ));
            assert(fan_sum_upto(c, s, 2 * j + 1) == fan_sum_upto(c, s, 2 * j) + fan_term(
                c,
                s,
                2 * j,
            ));
        } else {
            assert(2 * j == n - 1);
            let a = s[n - 1];
            let b = s[0];
            assert(next_idx(n, n - 1) == 0);
            assert(fan_term(c, s, n - 1) > 0);
            let tt = orient(c, a, b);
            assert(tt == fan_term(c, s, n - 1));
            let h = seq![c, a, b];
            assert(merged_at(c, s, j) == Some(h));
            lemma_area2_triangle(c, a, b);
            assert(area2(h) == tt);
            assert(h[0] == c);
            assert(h.to_set().contains(c));
            lemma_center_not_vertex_set(c, s);
            assert(!same_vertex_set(h, s));
            assert(subdivided_upto(c, s, k) == prev.push(h));
            assert(prev.push(h).drop_last() =~= prev);
            assert(prev.push(h).last() == h);
            assert(sum_area2(prev.push(h)) == sum_area2(prev) + area2(h));
            assert(fan_sum_upto(c, s, n) == fan_sum_upto(c, s, n - 1) + fan_term(c, s, n - 1));
        }
    }
}

/// Fragmentation partitions the area: for a strictly convex polygon of at
/// least four distinct vertices, wound counter-clockwise, whose computed
/// centroid lies strictly inside it and is not cut off by any merged pair's
/// chord, the fragment areas sum exactly to the polygon's area.
pub proof fn lemma_fragment_areas_partition(s: Seq<Point2>)
    requires
        s.len() >= 4,
        s.no_duplicates(),
        is_convex_ccw(s),
        centroid_inside(s),
        pairs_separated(s),
    ensures
        sum_area2(spec_subdivide(s)) == area2(s),
{
    let c = centroid_of(s);
    let n = s.len() as int;
    lemma_fan_total(c, s);
    lemma_fan_sum_pos(c, s, n);
    assert(signed_area2(s) > 0);
    assert(norm_ccw(s) == s);
    lemma_partition_chunks(c, s, num_chunks(n));
    assert(2 * num_chunks(n) >= n);
    assert(sum_area2(subdivided_upto(c, s, num_chunks(n))) == fan_sum_upto(c, s, n));
    assert(spec_subdivide(s) == subdivided_upto(c, s, num_chunks(n)));
}

proof fn lemma_reverse_no_duplicates(s: Seq<Point2>)
    requires
        s.no_duplicates(),
    ensures
        s.reverse().no_duplicates(),
{
    let r = s.reverse();
    let n = s.len() as int;
    assert forall|i: int, j: int| 0 <= i < r.len() && 0 <= j < r.len() && i != j implies r[i]
        != r[j] by {
        assert(r[i] == s[n - 1 - i]);
        assert(r[j] == s[n - 1 - j]);
    };
}

/// The clockwise counterpart of the partition law: for a polygon whose
/// reversed vertex list is strictly convex counter-clockwise, with the same
/// side conditions stated of the reversed list, the fragment areas sum
/// exactly to the polygon's area.
pub proof fn lemma_fragment_areas_partition_cw(s: Seq<Point2>)
    requires
        s.len() >= 4,
        s.no_duplicates(),
        is_convex_ccw(s.reverse()),
        fan_positive(centroid_of(s), s.reverse()),
        pairs_separated_from(centroid_of(s), s.reverse()),
    ensures
        sum_area2(spec_subdivide(s)) == area2(s),
{
    let c = centroid_of(s);
    let t = s.reverse();
    let n = t.len() as int;
    lemma_reverse_no_duplicates(s);
    lemma_fan_total(c, t);
    lemma_fan_sum_pos(c, t, n);
    assert(signed_area2(t) > 0);
    crate::geom::lemma_signed_area_reverse(s);
    assert(signed_area2(s) < 0);
    assert(norm_ccw(s) == t);
    lemma_partition_chunks(c, t, num_chunks(n));
    assert(2 * num_chunks(n) >= n);
    assert(sum_area2(subdivided_upto(c, t, num_chunks(n))) == fan_sum_upto(c, t, n));
    assert(spec_subdivide(s) == subdivided_upto(c, t, num_chunks(n)));
    assert(area2(s) == signed_area2(t));
}

} // verus!
