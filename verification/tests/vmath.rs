use rasterizer::vmath::clamp;
use rasterizer::vmath::IVec2;

#[test]
fn clamp_inside_range() {
    assert_eq!(clamp(5, 0, 10), 5);
}

#[test]
fn clamp_below_range() {
    assert_eq!(clamp(-1, 0, 10), 0);
}

#[test]
fn clamp_above_range() {
    assert_eq!(clamp(11, 0, 10), 10);
}

#[test]
fn clamp_at_edges() {
    assert_eq!(clamp(0, 0, 10), 0);
    assert_eq!(clamp(10, 0, 10), 10);
}

#[test]
fn clamp_inverted_range_lower_test_wins() {
    assert_eq!(clamp(5, 10, 0), 10);
}

#[test]
fn map_rescales_linearly() {
    assert_eq!(rasterizer::vmath::map(5, 0, 10, 0, 100), 50);
    assert_eq!(rasterizer::vmath::map(0, 0, 10, 0, 100), 0);
    assert_eq!(rasterizer::vmath::map(10, 0, 10, 0, 100), 100);
}

#[test]
fn map_truncates_toward_zero() {
    assert_eq!(rasterizer::vmath::map(7, 0, 10, 0, 33), 23);
    assert_eq!(rasterizer::vmath::map(-5, 0, 10, 0, 100), -50);
    assert_eq!(rasterizer::vmath::map(-7, 0, 10, 0, 33), -23);
}

#[test]
fn map_reversed_output_range() {
    assert_eq!(rasterizer::vmath::map(2, 0, 10, 100, 0), 80);
}

#[test]
fn map_reversed_input_range() {
    assert_eq!(rasterizer::vmath::map(5, 10, 0, 0, 100), 50);
}

#[test]
fn map_outside_input_range() {
    assert_eq!(rasterizer::vmath::map(20, 0, 10, 0, 100), 200);
}

#[test]
fn ivec2_new_holds_components() {
    let v = IVec2::new(3, -7);
    assert_eq!(v.x, 3);
    assert_eq!(v.y, -7);
}

#[test]
fn ivec2_splat_broadcasts() {
    let v = IVec2::splat(9);
    assert_eq!(v.x, 9);
    assert_eq!(v.y, 9);
}
