use raytrace::color::Color;
use raytrace::ppm::{quantize, write_pixel, write_ppm};

/// Fixed-point value of `v`: the largest grid point not above it.
fn fx(v: f64) -> i128 {
    (v * 65536.0).floor() as i128
}

#[test]
fn test_write_ppm() {
    let image = vec![vec![
        Color::new(fx(0.), fx(0.3), fx(0.7)),
        Color::new(fx(0.6), fx(0.2), fx(0.8)),
    ]];

    let result = write_ppm(2, 1, image);

    assert_eq!(result, b"P3\n2 1\n255\n0 76 179\n153 51 204\n");
}

#[test]
fn test_quantize_full_channel_is_255() {
    // 255.999 times 1.0, floored, is 255: a full channel saturates the byte
    assert_eq!(quantize(fx(1.0)), 255);
}

#[test]
fn test_quantize_zero_channel_is_0() {
    assert_eq!(quantize(fx(0.0)), 0);
}

#[test]
fn test_quantize_clamps_out_of_range_values() {
    assert_eq!(quantize(fx(2.0)), 255);
    assert_eq!(quantize(fx(-1.0)), 0);
}

#[test]
fn test_write_pixel_line() {
    let mut out: Vec<u8> = Vec::new();
    write_pixel(Color::new(fx(1.0), fx(0.0), fx(0.5)), &mut out);
    assert_eq!(out, b"255 0 127\n");
}

#[test]
fn test_write_ppm_empty_image() {
    let result = write_ppm(0, 0, Vec::new());
    assert_eq!(result, b"P3\n0 0\n255\n");
}
