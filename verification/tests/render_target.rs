use rasterizer::render::Renderer;
use rasterizer::render_target::Color;
use rasterizer::render_target::RenderTarget;

#[test]
fn new_target_is_zeroed() {
    let rt = RenderTarget::new(4, 3);
    assert_eq!(rt.width, 4);
    assert_eq!(rt.height, 3);
    assert_eq!(rt.color_buffer.len(), 12);
    for c in rt.color_buffer.iter() {
        assert_eq!(*c, Color::new(0, 0, 0, 0));
    }
}

#[test]
fn pixels_have_four_bytes_per_cell() {
    let rt = RenderTarget::new(7, 5);
    let px = rt.color_buffer_to_pixels();
    assert_eq!(px.len(), 7 * 5 * 4);
}

#[test]
fn pixels_flip_rows_vertically() {
    let mut rt = RenderTarget::new(2, 2);
    // Logical top row: two distinct colors; bottom row: two more.
    rt.color_buffer[0] = Color::new(1, 2, 3, 4);
    rt.color_buffer[1] = Color::new(5, 6, 7, 8);
    rt.color_buffer[2] = Color::new(9, 10, 11, 12);
    rt.color_buffer[3] = Color::new(13, 14, 15, 16);
    let px = rt.color_buffer_to_pixels();
    // Destination row 0 shows the last framebuffer row, columns kept.
    assert_eq!(&px[0..4], &[9, 10, 11, 12]);
    assert_eq!(&px[4..8], &[13, 14, 15, 16]);
    assert_eq!(&px[8..12], &[1, 2, 3, 4]);
    assert_eq!(&px[12..16], &[5, 6, 7, 8]);
}

#[test]
fn clear_then_pixels_round_trip() {
    // A background color given in unit-interval channels, quantized the
    // way a caller feeds colors to the library: truncation of v * 255.
    let channels = [0.258824f32, 0.258824f32, 0.435294f32, 1.0f32];
    let q = |v: f32| (v * 255.0) as u8;
    let color = Color::new(q(channels[0]), q(channels[1]), q(channels[2]), q(channels[3]));
    let mut r = Renderer::new(16, 9);
    r.clear_color(color);
    let px = r.target.color_buffer_to_pixels();
    assert_eq!(px.len(), 16 * 9 * 4);
    for p in 0..(16 * 9) {
        assert_eq!(px[p * 4], q(channels[0]));
        assert_eq!(px[p * 4 + 1], q(channels[1]));
        assert_eq!(px[p * 4 + 2], q(channels[2]));
        assert_eq!(px[p * 4 + 3], q(channels[3]));
    }
}
