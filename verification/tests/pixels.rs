use svg::apng::unpremultiply;

#[test]
fn unpremultiply_keeps_opaque_and_clears_transparent() {
    let data = [10, 20, 30, 255, 99, 98, 97, 0];
    assert_eq!(unpremultiply(&data), vec![10, 20, 30, 255, 0, 0, 0, 0]);
}

#[test]
fn unpremultiply_divides_by_alpha() {
    // 64 * 255 / 128 = 127.5, rounded to 128; 128 * 255 / 128 = 255.
    assert_eq!(unpremultiply(&[64, 128, 0, 128]), vec![128, 255, 0, 128]);
    // (50 * 255 + 50) / 100 = 128.
    assert_eq!(unpremultiply(&[50, 25, 100, 100]), vec![128, 64, 255, 100]);
}

#[test]
fn unpremultiply_clamps_channels_above_alpha() {
    assert_eq!(unpremultiply(&[200, 0, 0, 100]), vec![255, 0, 0, 100]);
}

#[test]
fn unpremultiply_drops_a_partial_pixel() {
    assert_eq!(unpremultiply(&[1, 2, 3, 255, 7, 7]), vec![1, 2, 3, 255]);
    assert!(unpremultiply(&[]).is_empty());
}
