use beamfrag::geom::{compute_polygon_centroid, polygon_area2, polygon_signed_area2, Point2};

fn pt(x: i64, y: i64) -> Point2 {
    Point2 { x, y }
}

fn square_16() -> Vec<Point2> {
    // 4x4 world units centered at the origin (coordinates are milli-units).
    vec![pt(-2000, -2000), pt(2000, -2000), pt(2000, 2000), pt(-2000, 2000)]
}

#[test]
fn area_of_square() {
    let v = square_16();
    // area 16.0 world units => doubled fixed-point area 2 * (4000*4000).
    assert_eq!(polygon_area2(&v), 32_000_000);
}

#[test]
fn area_of_triangle() {
    let v = vec![pt(0, 0), pt(4000, 0), pt(0, 4000)];
    assert_eq!(polygon_area2(&v), 16_000_000);
}

#[test]
fn signed_area_is_negative_for_clockwise() {
    let mut v = square_16();
    v.reverse();
    assert_eq!(polygon_signed_area2(&v), -32_000_000);
    assert_eq!(polygon_area2(&v), 32_000_000);
}

#[test]
fn area_invariant_under_rotation_of_vertex_list() {
    let v = square_16();
    let total = polygon_area2(&v);
    for k in 0..v.len() {
        let mut rotated: Vec<Point2> = Vec::new();
        for i in 0..v.len() {
            rotated.push(v[(k + i) % v.len()]);
        }
        assert_eq!(polygon_area2(&rotated), total);
    }
}

#[test]
fn area_invariant_under_winding_direction() {
    let v = vec![pt(4000, 0), pt(2000, 3464), pt(-2000, 3464), pt(-4000, 0), pt(-2000, -3464), pt(2000, -3464)];
    let mut w = v.clone();
    w.reverse();
    assert_eq!(polygon_area2(&v), polygon_area2(&w));
}

#[test]
fn centroid_of_square_is_its_center() {
    let v = square_16();
    let c = compute_polygon_centroid(&v);
    assert_eq!(c, pt(0, 0));
}

#[test]
fn centroid_of_offset_square() {
    let v = vec![pt(1000, 1000), pt(3000, 1000), pt(3000, 3000), pt(1000, 3000)];
    let c = compute_polygon_centroid(&v);
    assert_eq!(c, pt(2000, 2000));
}
