use rusttracer::ppm::{PPM, RGB};
use rusttracer::render::render_pixels;

#[test]
fn test_render_pixels_places_each_color() {
    let colors = vec![
        RGB::new(1, 2, 3),
        RGB::new(4, 5, 6),
        RGB::new(7, 8, 9),
        RGB::new(10, 11, 12),
    ];
    let img = render_pixels(2, 2, &colors);
    assert_eq!(img.get_pixel(0, 0), Some(RGB::new(1, 2, 3)));
    assert_eq!(img.get_pixel(1, 0), Some(RGB::new(4, 5, 6)));
    assert_eq!(img.get_pixel(0, 1), Some(RGB::new(7, 8, 9)));
    assert_eq!(img.get_pixel(1, 1), Some(RGB::new(10, 11, 12)));
}

#[test]
fn test_render_pixels_non_square() {
    let colors = vec![
        RGB::new(1, 1, 1),
        RGB::new(2, 2, 2),
        RGB::new(3, 3, 3),
        RGB::new(4, 4, 4),
        RGB::new(5, 5, 5),
        RGB::new(6, 6, 6),
    ];
    // height 2, width 3: row-major rows of three.
    let img = render_pixels(2, 3, &colors);
    assert_eq!(img.get_height(), 2);
    assert_eq!(img.get_width(), 3);
    assert_eq!(img.get_pixel(2, 0), Some(RGB::new(3, 3, 3)));
    assert_eq!(img.get_pixel(0, 1), Some(RGB::new(4, 4, 4)));
    assert_eq!(img.get_pixel(2, 1), Some(RGB::new(6, 6, 6)));
}

#[test]
fn test_rendering_same_colors_is_byte_identical() {
    // Re-rendering the same pixel colors with no mutation in between gives
    // byte-identical serialized output.
    let mut colors = Vec::new();
    for i in 0..64u32 {
        colors.push(RGB::new(i as u8, (i * 2) as u8, 255 - i as u8));
    }
    let first = render_pixels(8, 8, &colors).get_bytes();
    let second = render_pixels(8, 8, &colors).get_bytes();
    assert_eq!(first, second);
}
