use rusttracer::ppm::{PPM, RGB};

#[test]
fn test_new_buffer_is_black() {
    let ppm = PPM::new(2, 3);
    assert_eq!(ppm.get_height(), 2);
    assert_eq!(ppm.get_width(), 3);
    let raw = ppm.get_raw_bytes();
    assert_eq!(raw.len(), 18);
    assert!(raw.iter().all(|&byte| byte == 0));
    for y in 0..2 {
        for x in 0..3 {
            assert_eq!(ppm.get_pixel(x, y), Some(RGB::new(0, 0, 0)));
        }
    }
}

#[test]
fn test_set_get_roundtrip() {
    let mut ppm = PPM::new(4, 4);
    assert!(ppm.set_pixel(1, 2, RGB::new(10, 20, 30)));
    assert_eq!(ppm.get_pixel(1, 2), Some(RGB::new(10, 20, 30)));
    // Neighbouring pixels stay black.
    assert_eq!(ppm.get_pixel(2, 1), Some(RGB::new(0, 0, 0)));
    assert_eq!(ppm.get_pixel(0, 0), Some(RGB::new(0, 0, 0)));
    assert_eq!(ppm.get_pixel(3, 3), Some(RGB::new(0, 0, 0)));
}

#[test]
fn test_set_pixel_overwrite_takes_last_value() {
    let mut ppm = PPM::new(2, 2);
    assert!(ppm.set_pixel(0, 1, RGB::new(1, 2, 3)));
    assert!(ppm.set_pixel(0, 1, RGB::new(200, 100, 50)));
    assert_eq!(ppm.get_pixel(0, 1), Some(RGB::new(200, 100, 50)));
}

#[test]
fn test_out_of_bounds_rejected_without_mutation() {
    let mut ppm = PPM::new(2, 2);
    let before = ppm.get_bytes();
    assert!(!ppm.set_pixel(2, 0, RGB::new(255, 255, 255)));
    assert!(!ppm.set_pixel(0, 2, RGB::new(255, 255, 255)));
    assert!(!ppm.set_pixel(7, 9, RGB::new(255, 255, 255)));
    assert_eq!(ppm.get_pixel(2, 0), None);
    assert_eq!(ppm.get_pixel(0, 2), None);
    assert_eq!(ppm.get_bytes(), before);
}

#[test]
fn test_get_bytes_header_and_payload() {
    let mut ppm = PPM::new(2, 3);
    assert!(ppm.set_pixel(0, 0, RGB::new(9, 8, 7)));
    let bytes = ppm.get_bytes();
    let mut expected: Vec<u8> = b"P6 3 2 255\n".to_vec();
    expected.extend_from_slice(&[9, 8, 7]);
    expected.extend_from_slice(&[0; 15]);
    assert_eq!(bytes, expected);
}

#[test]
fn test_get_bytes_multidigit_dimensions() {
    let ppm = PPM::new(512, 512);
    let bytes = ppm.get_bytes();
    let header = b"P6 512 512 255\n";
    assert_eq!(&bytes[..header.len()], header);
    assert_eq!(bytes.len(), header.len() + 512 * 512 * 3);
}

#[test]
fn test_empty_canvas() {
    let ppm = PPM::new(0, 0);
    assert_eq!(ppm.get_pixel(0, 0), None);
    assert_eq!(ppm.get_bytes(), b"P6 0 0 255\n".to_vec());
}

#[test]
fn test_row_major_layout() {
    // Pixel (x, y) starts at byte (y * width + x) * 3.
    let mut ppm = PPM::new(2, 3);
    assert!(ppm.set_pixel(2, 1, RGB::new(11, 22, 33)));
    let raw = ppm.get_raw_bytes();
    let offset = (1 * 3 + 2) * 3;
    assert_eq!(&raw[offset..offset + 3], &[11, 22, 33]);
}
