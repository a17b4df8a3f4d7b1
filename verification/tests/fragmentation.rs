use beamfrag::fragmenter::{create_triangles_using_centroid, fragment, subdivide, DESTRUCTIBLE_AREA2};
use beamfrag::geom::{compute_polygon_centroid, polygon_area2, Point2};

fn pt(x: i64, y: i64) -> Point2 {
    Point2 { x, y }
}

fn square_16() -> Vec<Point2> {
    vec![pt(-2000, -2000), pt(2000, -2000), pt(2000, 2000), pt(-2000, 2000)]
}

fn hexagon() -> Vec<Point2> {
    vec![pt(4000, 0), pt(2000, 3464), pt(-2000, 3464), pt(-4000, 0), pt(-2000, -3464), pt(2000, -3464)]
}

fn same_point_set(a: &Vec<Point2>, b: &Vec<Point2>) -> bool {
    a.iter().all(|p| b.contains(p)) && b.iter().all(|p| a.contains(p))
}

#[test]
fn triangle_fan_covers_every_edge() {
    let v = square_16();
    let c = compute_polygon_centroid(&v);
    let ts = create_triangles_using_centroid(c, &v);
    assert_eq!(ts.len(), 4);
    for (i, t) in ts.iter().enumerate() {
        assert_eq!(t.0, c);
        assert_eq!(t.1, v[i]);
        assert_eq!(t.2, v[(i + 1) % v.len()]);
    }
}

#[test]
fn square_fragments_partition_its_area() {
    let v = square_16();
    let total = polygon_area2(&v);
    let parts = fragment(&v);
    assert!(parts.len() >= 2);
    let mut sum: i128 = 0;
    for p in &parts {
        let a = polygon_area2(&p.vertices);
        assert!(a < total, "every fragment is strictly smaller than the whole");
        sum += a;
    }
    assert_eq!(sum, total);
}

#[test]
fn square_of_area_16_yields_destructible_halves() {
    // Each half of a 16.0 square has area 8.0, exactly the threshold.
    let parts = fragment(&square_16());
    assert_eq!(parts.len(), 2);
    for p in &parts {
        assert_eq!(polygon_area2(&p.vertices), 16_000_000);
        assert!(p.destructible);
    }
}

#[test]
fn hexagon_fragments_partition_its_area() {
    let v = hexagon();
    let total = polygon_area2(&v);
    let parts = fragment(&v);
    let sum: i128 = parts.iter().map(|p| polygon_area2(&p.vertices)).sum();
    assert_eq!(sum, total);
}

#[test]
fn no_fragment_reproduces_the_input_vertex_set() {
    for v in [square_16(), hexagon()] {
        for h in subdivide(&v) {
            assert!(!same_point_set(&h, &v));
        }
    }
}

#[test]
fn triangle_input_loses_area_to_the_vertex_set_filter() {
    // For a triangle the merged pair hulls back to the full input triangle
    // and is discarded by the vertex-set filter, so only the unpaired fan
    // triangle survives: the fragment areas do not sum to the whole.
    let v = vec![pt(0, 0), pt(6000, 0), pt(0, 6000)];
    let total = polygon_area2(&v);
    let parts = fragment(&v);
    assert_eq!(parts.len(), 1);
    assert_eq!(polygon_area2(&parts[0].vertices), total / 3);
}

#[test]
fn classification_is_a_partition_at_the_threshold() {
    for v in [square_16(), hexagon()] {
        for p in fragment(&v) {
            let a = polygon_area2(&p.vertices);
            assert_eq!(p.destructible, a >= DESTRUCTIBLE_AREA2);
        }
    }
}

#[test]
fn small_square_fragments_are_all_inert() {
    // 2x2 world units: area 4.0, each half 2.0, well under the threshold.
    let v = vec![pt(-1000, -1000), pt(1000, -1000), pt(1000, 1000), pt(-1000, 1000)];
    let parts = fragment(&v);
    assert!(!parts.is_empty());
    for p in &parts {
        assert!(!p.destructible);
    }
}

#[test]
fn clockwise_polygon_fragments_like_its_reverse() {
    let mut v = hexagon();
    let total = polygon_area2(&v);
    v.reverse();
    let parts = fragment(&v);
    let sum: i128 = parts.iter().map(|p| polygon_area2(&p.vertices)).sum();
    assert_eq!(sum, total);
}

#[test]
fn fragments_of_fragments_stay_well_formed() {
    // Destructible fragments can be fragmented again.
    let parts = fragment(&square_16());
    for p in parts {
        if p.destructible {
            let again = fragment(&p.vertices);
            let sum: i128 = again.iter().map(|q| polygon_area2(&q.vertices)).sum();
            assert!(sum > 0);
            for q in &again {
                assert!(q.vertices.len() >= 3);
            }
        }
    }
}
