use svg::svg::color::{ColorChannel, ParsedColor};
use svg::Color;

/// The byte a decimal text stands for, as the renderer computes it: a
/// percentage of 255, or a fraction of 255 for alpha.
fn scaled(text: &str, per: f32) -> Option<u8> {
    let v: f32 = text.parse().ok()?;
    Some((v / per * 255.0).round() as u8)
}

fn channel(c: &ColorChannel) -> Option<u8> {
    match c {
        ColorChannel::Byte(v) => Some(*v),
        ColorChannel::Percent(t) => scaled(t, 100.0),
    }
}

/// Reads a colour all the way to RGBA, the percentages and alpha included.
fn parse_color(s: &str) -> Option<Color> {
    match svg::svg::color::parse_color(s)? {
        ParsedColor::Solid(c) => Some(c),
        ParsedColor::Functional { r, g, b, alpha } => {
            let r = channel(&r)?;
            let g = channel(&g)?;
            let b = channel(&b)?;
            let a = match alpha {
                None => 255,
                Some(t) => scaled(&t, 1.0)?,
            };
            Some(Color { r, g, b, a })
        }
    }
}

#[test]
fn test_hex_rgb_short() {
    assert_eq!(
        parse_color("#F00"),
        Some(Color { r: 255, g: 0, b: 0, a: 255 })
    );
    assert_eq!(
        parse_color("#0F0"),
        Some(Color { r: 0, g: 255, b: 0, a: 255 })
    );
    assert_eq!(
        parse_color("#00F"),
        Some(Color { r: 0, g: 0, b: 255, a: 255 })
    );
    assert_eq!(
        parse_color("#ABC"),
        Some(Color { r: 0xAA, g: 0xBB, b: 0xCC, a: 255 })
    );
}

#[test]
fn test_hex_rrggbb() {
    assert_eq!(
        parse_color("#FF0000"),
        Some(Color { r: 255, g: 0, b: 0, a: 255 })
    );
    assert_eq!(
        parse_color("#00FF00"),
        Some(Color { r: 0, g: 255, b: 0, a: 255 })
    );
    assert_eq!(
        parse_color("#0000FF"),
        Some(Color { r: 0, g: 0, b: 255, a: 255 })
    );
}

#[test]
fn test_hex_rrggbbaa() {
    assert_eq!(
        parse_color("#FF000080"),
        Some(Color { r: 255, g: 0, b: 0, a: 128 })
    );
    assert_eq!(
        parse_color("#00FF00FF"),
        Some(Color { r: 0, g: 255, b: 0, a: 255 })
    );
    assert_eq!(
        parse_color("#0000FF00"),
        Some(Color { r: 0, g: 0, b: 255, a: 0 })
    );
}

// ========================================
// ========================================

#[test]
fn test_rgb_integers() {
    assert_eq!(
        parse_color("rgb(255, 0, 0)"),
        Some(Color { r: 255, g: 0, b: 0, a: 255 })
    );
    assert_eq!(
        parse_color("rgb(0,128,255)"),
        Some(Color { r: 0, g: 128, b: 255, a: 255 })
    );
}

#[test]
fn test_rgb_percentages() {
    assert_eq!(
        parse_color("rgb(100%, 0%, 0%)"),
        Some(Color { r: 255, g: 0, b: 0, a: 255 })
    );
    assert_eq!(
        parse_color("rgb(0%, 50%, 100%)"),
        Some(Color { r: 0, g: 128, b: 255, a: 255 })
    );
}

// ========================================
// ========================================

#[test]
fn test_rgba() {
    assert_eq!(
        parse_color("rgba(255, 0, 0, 1.0)"),
        Some(Color { r: 255, g: 0, b: 0, a: 255 })
    );
    assert_eq!(
        parse_color("rgba(255, 0, 0, 0.5)"),
        Some(Color { r: 255, g: 0, b: 0, a: 128 })
    );
    assert_eq!(
        parse_color("rgba(0, 0, 0, 0.0)"),
        Some(Color { r: 0, g: 0, b: 0, a: 0 })
    );
}

// ========================================
// ========================================

#[test]
fn test_none() {
    assert_eq!(parse_color("none"), None);
    assert_eq!(parse_color("None"), None);
    assert_eq!(parse_color("NONE"), None);
}

// ========================================
// ========================================

#[test]
fn test_named_colors() {
    assert_eq!(
        parse_color("red"),
        Some(Color { r: 255, g: 0, b: 0, a: 255 })
    );
    assert_eq!(
        parse_color("blue"),
        Some(Color { r: 0, g: 0, b: 255, a: 255 })
    );
    assert_eq!(
        parse_color("green"),
        Some(Color { r: 0, g: 128, b: 0, a: 255 })
    );
    assert_eq!(
        parse_color("white"),
        Some(Color { r: 255, g: 255, b: 255, a: 255 })
    );
    assert_eq!(
        parse_color("black"),
        Some(Color { r: 0, g: 0, b: 0, a: 255 })
    );
    assert_eq!(
        parse_color("aliceblue"),
        Some(Color { r: 240, g: 248, b: 255, a: 255 })
    );
    assert_eq!(
        parse_color("yellowgreen"),
        Some(Color { r: 154, g: 205, b: 50, a: 255 })
    );
}

#[test]
fn test_named_colors_case_insensitive() {
    assert_eq!(
        parse_color("Red"),
        Some(Color { r: 255, g: 0, b: 0, a: 255 })
    );
    assert_eq!(
        parse_color("BLUE"),
        Some(Color { r: 0, g: 0, b: 255, a: 255 })
    );
    assert_eq!(
        parse_color("AliceBlue"),
        Some(Color { r: 240, g: 248, b: 255, a: 255 })
    );
}

// ========================================
// ========================================

#[test]
fn test_checkout_svg_colors() {
    assert_eq!(
        parse_color("#F8FAFC"),
        Some(Color { r: 0xF8, g: 0xFA, b: 0xFC, a: 255 })
    );
    assert_eq!(
        parse_color("#F59E0B"),
        Some(Color { r: 0xF5, g: 0x9E, b: 0x0B, a: 255 })
    );
    assert_eq!(
        parse_color("#D97706"),
        Some(Color { r: 0xD9, g: 0x77, b: 0x06, a: 255 })
    );
    assert_eq!(
        parse_color("#FEF3C7"),
        Some(Color { r: 0xFE, g: 0xF3, b: 0xC7, a: 255 })
    );
    assert_eq!(
        parse_color("#6366F1"),
        Some(Color { r: 0x63, g: 0x66, b: 0xF1, a: 255 })
    );
    assert_eq!(
        parse_color("#312E81"),
        Some(Color { r: 0x31, g: 0x2E, b: 0x81, a: 255 })
    );
    assert_eq!(
        parse_color("#FBBF24"),
        Some(Color { r: 0xFB, g: 0xBF, b: 0x24, a: 255 })
    );
    assert_eq!(
        parse_color("#F43F5E"),
        Some(Color { r: 0xF4, g: 0x3F, b: 0x5E, a: 255 })
    );
    assert_eq!(
        parse_color("#10B981"),
        Some(Color { r: 0x10, g: 0xB9, b: 0x81, a: 255 })
    );
    assert_eq!(
        parse_color("#FFFFFF"),
        Some(Color { r: 0xFF, g: 0xFF, b: 0xFF, a: 255 })
    );
    assert_eq!(
        parse_color("#475569"),
        Some(Color { r: 0x47, g: 0x55, b: 0x69, a: 255 })
    );
}

#[test]
fn test_checkout_svg_rgba() {
    // rgba(0,0,0,0.08) → a = round(0.08 * 255) = round(20.4) = 20
    assert_eq!(
        parse_color("rgba(0,0,0,0.08)"),
        Some(Color { r: 0, g: 0, b: 0, a: 20 })
    );
}
