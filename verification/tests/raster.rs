use rasterizer::raster::dot;
use rasterizer::raster::is_point_in_triangle;
use rasterizer::raster::is_point_on_rightside_of_line;
use rasterizer::raster::triangle_bounds;
use rasterizer::vmath::IVec2;

fn pt(x: i32, y: i32) -> IVec2 {
    IVec2::new(x, y)
}

#[test]
fn rightside_of_horizontal_line() {
    // The line runs left to right; points below it (larger y) are on the
    // non-positive side in screen coordinates.
    assert!(is_point_on_rightside_of_line(pt(5, 1), pt(0, 0), pt(10, 0)));
    assert!(!is_point_on_rightside_of_line(pt(5, -1), pt(0, 0), pt(10, 0)));
    assert!(is_point_on_rightside_of_line(pt(5, 0), pt(0, 0), pt(10, 0)));
}

#[test]
fn centroid_is_inside_accepted_winding() {
    // The third vertex lies on the non-positive side of the first edge,
    // so this triangle has the winding the test accepts.
    let a = pt(0, 0);
    let b = pt(9, 0);
    let c = pt(0, 9);
    assert!(is_point_in_triangle(pt(3, 3), a, b, c));
}

#[test]
fn far_point_is_outside() {
    let a = pt(0, 0);
    let b = pt(9, 0);
    let c = pt(0, 9);
    assert!(!is_point_in_triangle(pt(100, 100), a, b, c));
    assert!(!is_point_in_triangle(pt(-50, -50), a, b, c));
    assert!(!is_point_in_triangle(pt(-50, 3), a, b, c));
    assert!(!is_point_in_triangle(pt(3, 200), a, b, c));
}

#[test]
fn vertices_and_edges_are_inside() {
    let a = pt(0, 0);
    let b = pt(9, 0);
    let c = pt(0, 9);
    assert!(is_point_in_triangle(a, a, b, c));
    assert!(is_point_in_triangle(b, a, b, c));
    assert!(is_point_in_triangle(c, a, b, c));
    assert!(is_point_in_triangle(pt(4, 0), a, b, c));
}

#[test]
fn opposite_winding_rejects_every_point() {
    // The same triangle with two vertices swapped: nothing passes.
    let a = pt(0, 0);
    let b = pt(0, 9);
    let c = pt(9, 0);
    assert!(!is_point_in_triangle(pt(3, 3), a, b, c));
    assert!(!is_point_in_triangle(pt(1, 1), a, b, c));
    assert!(!is_point_in_triangle(a, a, b, c));
    assert!(!is_point_in_triangle(b, a, b, c));
    assert!(!is_point_in_triangle(c, a, b, c));
    assert!(!is_point_in_triangle(pt(100, 100), a, b, c));
}

#[test]
fn bounds_are_clamped_to_viewport() {
    let r = triangle_bounds(pt(-1000, -1000), pt(5, 5), pt(8, 2), 1280, 720);
    assert_eq!((r.0.x, r.0.y), (0, 0));
    assert_eq!((r.1.x, r.1.y), (8, 5));
}

#[test]
fn bounds_of_triangle_fully_outside_collapse() {
    let r = triangle_bounds(pt(-30, -40), pt(-10, -20), pt(-5, -9), 1280, 720);
    assert_eq!((r.0.x, r.0.y), (0, 0));
    assert_eq!((r.1.x, r.1.y), (0, 0));
    let r = triangle_bounds(pt(2000, 2000), pt(3000, 2500), pt(2500, 4000), 1280, 720);
    assert_eq!((r.0.x, r.0.y), (1279, 719));
    assert_eq!((r.1.x, r.1.y), (1279, 719));
}

#[test]
fn bounds_inside_viewport_are_exact() {
    let r = triangle_bounds(pt(3, 7), pt(20, 2), pt(11, 30), 1280, 720);
    assert_eq!((r.0.x, r.0.y), (3, 2));
    assert_eq!((r.1.x, r.1.y), (20, 30));
}

#[test]
fn dot_product() {
    assert_eq!(dot(pt(1, 2), pt(3, 4)), 11);
    assert_eq!(dot(pt(-1, 2), pt(3, 4)), 5);
    assert_eq!(dot(pt(0, 0), pt(3, 4)), 0);
}
