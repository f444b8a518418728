use simpleroute::icon::decode_logo;

/// A 2×1 RGBA image: an opaque red pixel, then a half-transparent blue one.
const TWO_PIXELS_PNG: &[u8] = &[
    0x89, 0x50, 0x4e, 0x47, 0x0d, 0x0a, 0x1a, 0x0a, 0x00, 0x00, 0x00, 0x0d, 0x49, 0x48, 0x44, 0x52,
    0x00, 0x00, 0x00, 0x02, 0x00, 0x00, 0x00, 0x01, 0x08, 0x06, 0x00, 0x00, 0x00, 0xf4, 0x22, 0x7f,
    0x8a, 0x00, 0x00, 0x00, 0x0e, 0x49, 0x44, 0x41, 0x54, 0x78, 0xda, 0x63, 0xf8, 0xcf, 0xc0, 0x00,
    0x42, 0x0d, 0x00, 0x0f, 0x7a, 0x03, 0x7e, 0x6a, 0x81, 0x31, 0xe1, 0x00, 0x00, 0x00, 0x00, 0x49,
    0x45, 0x4e, 0x44, 0xae, 0x42, 0x60, 0x82,
];

#[test]
fn decodes_png_pixels() {
    let img = decode_logo(TWO_PIXELS_PNG).expect("valid png");
    assert_eq!(img.width, 2);
    assert_eq!(img.height, 1);
    assert_eq!(img.pixels, vec![255, 0, 0, 255, 0, 0, 255, 128]);
}

#[test]
fn refuses_what_is_not_png() {
    assert!(decode_logo(&[]).is_none());
    assert!(decode_logo(b"not a png file").is_none());
    assert!(decode_logo(&TWO_PIXELS_PNG[..20]).is_none());
}
