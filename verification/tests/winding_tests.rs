use maptiles::geometry::Point;
use maptiles::winding::area;
use maptiles::winding::winding;
use maptiles::winding::Winding;

fn ring_of(points: &[(i64, i64)]) -> Vec<Point> {
    points.iter().map(|p| Point { x: p.0, y: p.1 }).collect()
}

#[test]
fn shoelace_sum_of_a_square() {
    let r = ring_of(&[(0, 0), (10, 0), (10, 10), (0, 10)]);
    assert_eq!(area(&r), 200);
    assert_eq!(winding(&r), Winding::Positive);
}

#[test]
fn shoelace_sum_is_stable_under_rotation() {
    let a = ring_of(&[(1, 1), (7, 2), (9, 8), (3, 11), (-2, 5)]);
    let b = ring_of(&[(9, 8), (3, 11), (-2, 5), (1, 1), (7, 2)]);
    assert_eq!(area(&a), area(&b));
    assert_eq!(area(&a), 138);
}

#[test]
fn shoelace_sum_flips_under_reversal() {
    let a = ring_of(&[(0, 0), (10, 0), (10, 10), (0, 10)]);
    let b = ring_of(&[(0, 10), (10, 10), (10, 0), (0, 0)]);
    assert_eq!(area(&b), -200);
    assert_eq!(area(&a), -area(&b));
    assert_eq!(winding(&b), Winding::Negative);
}

#[test]
fn degenerate_rings_have_no_area() {
    assert_eq!(area(&ring_of(&[])), 0);
    assert_eq!(area(&ring_of(&[(4, 5)])), 0);
    assert_eq!(area(&ring_of(&[(0, 0), (5, 5), (10, 10)])), 0);
    assert_eq!(winding(&ring_of(&[(0, 0), (5, 5)])), Winding::Degenerate);
}

#[test]
fn decoded_ring_has_the_area_of_its_triangle() {
    let r = ring_of(&[(0, 0), (5, 5), (10, 5), (10, 10)]);
    assert_eq!(area(&r), 25);
}

#[test]
fn area_of_the_points_of_a_decoded_polygon() {
    let stream: Vec<u32> = vec![9, 0, 0, 26, 20, 0, 0, 20, 19, 0, 15];
    let paths = maptiles::geometry::geometry_commands_to_drawable(
        maptiles::geometry::GeomType::Polygon,
        &stream,
    )
    .unwrap();
    let pts = paths[0].points();
    assert_eq!(pts, ring_of(&[(0, 0), (10, 0), (10, 10), (0, 10)]));
    assert_eq!(area(&pts), 200);
}
