//! Colour syntax: `#RGB`, `#RRGGBB`, `#RRGGBBAA`, `rgb()`, `rgba()`, `none`
//! and the CSS named colours.
//!
//! A percentage channel or an `rgba()` alpha is a decimal number whose
//! conversion to a byte is a floating-point computation; such parts are
//! handed back as text, and every other part is read here.

use vstd::prelude::*;
use vstd::utf8::*;
use vstd::string::*;
use crate::types::Color;
use crate::text::{
    ascii_lower_char, lower_char, lower_chars, parse_u32_radix, spec_parse_u32, split_on, split_str, trim,
    trim_is_idempotent, trim_start, trim_start_str, trim_str,
};
use crate::xml::tree::str_eq;

verus! {

broadcast use vstd::seq::group_seq_axioms;

/// One channel of an `rgb()`/`rgba()` colour.
#[derive(Debug, Clone, PartialEq)]
pub enum ColorChannel {
    /// An integer 0..=255.
    Byte(u8),
    /// A percentage: the text before `%`, trimmed, still to be read as a
    /// decimal number and scaled from 0..100 to 0..255.
    Percent(String),
}

/// A colour as read from its text.
#[derive(Debug, Clone, PartialEq)]
pub enum ParsedColor {
    /// A hex or named colour, fully known.
    Solid(Color),
    /// An `rgb()` (`alpha` is `None`, meaning opaque) or `rgba()` colour;
    /// `alpha` is the trimmed text of the fourth argument, a decimal number
    /// in 0..1 still to be scaled to 0..255.
    Functional { r: ColorChannel, g: ColorChannel, b: ColorChannel, alpha: Option<String> },
}

/// What a channel holds.
pub enum SpecChannel {
    Byte(u8),
    Percent(Seq<char>),
}

/// What a parsed colour holds.
pub enum SpecColor {
    Solid(Color),
    Functional { r: SpecChannel, g: SpecChannel, b: SpecChannel, alpha: Option<Seq<char>> },
}

impl View for ColorChannel {
    type V = SpecChannel;

    open spec fn view(&self) -> SpecChannel {
        match self {
            ColorChannel::Byte(v) => SpecChannel::Byte(*v),
            ColorChannel::Percent(t) => SpecChannel::Percent(t@),
        }
    }
}

impl View for ParsedColor {
    type V = SpecColor;

    open spec fn view(&self) -> SpecColor {
        match self {
            ParsedColor::Solid(c) => SpecColor::Solid(*c),
            ParsedColor::Functional { r, g, b, alpha } => SpecColor::Functional {
                r: r@,
                g: g@,
                b: b@,
                alpha: match alpha {
                    Some(a) => Some(a@),
                    None => None,
                },
            },
        }
    }
}

// ------------------------------------------------------------------
// Hex colours
// ------------------------------------------------------------------

/// The value of one hex digit.
pub open spec fn hex_digit_value(c: u8) -> Option<u8> {
    if 0x30u8 <= c && c <= 0x39u8 {
        Some((c - 0x30u8) as u8)
    } else if 0x61u8 <= c && c <= 0x66u8 {
        Some((c - 0x61u8 + 10) as u8)
    } else if 0x41u8 <= c && c <= 0x46u8 {
        Some((c - 0x41u8 + 10) as u8)
    } else {
        None
    }
}

/// The byte written by the two hex digits `h[i]`, `h[i + 1]`.
pub open spec fn spec_hex_byte(h: Seq<u8>, i: int) -> Option<u8> {
    match (hex_digit_value(h[i]), hex_digit_value(h[i + 1])) {
        (Some(hi), Some(lo)) => Some((hi * 16 + lo) as u8),
        _ => None,
    }
}

/// `#RGB` (each digit doubled), `#RRGGBB` or `#RRGGBBAA`: `h` is what
/// follows `#`.
pub open spec fn spec_parse_hex(h: Seq<u8>) -> Option<Color> {
    if h.len() == 3 {
        match (hex_digit_value(h[0]), hex_digit_value(h[1]), hex_digit_value(h[2])) {
            (Some(r), Some(g), Some(b)) => Some(
                Color { r: (r * 17) as u8, g: (g * 17) as u8, b: (b * 17) as u8, a: 255 },
            ),
            _ => None,
        }
    } else if h.len() == 6 {
        match (spec_hex_byte(h, 0), spec_hex_byte(h, 2), spec_hex_byte(h, 4)) {
            (Some(r), Some(g), Some(b)) => Some(Color { r, g, b, a: 255 }),
            _ => None,
        }
    } else if h.len() == 8 {
        match (spec_hex_byte(h, 0), spec_hex_byte(h, 2), spec_hex_byte(h, 4), spec_hex_byte(h, 6)) {
            (Some(r), Some(g), Some(b), Some(a)) => Some(Color { r, g, b, a }),
            _ => None,
        }
    } else {
        None
    }
}

// ------------------------------------------------------------------
// rgb() / rgba()
// ------------------------------------------------------------------

/// `name(inner)` with `name` matched without regard to ASCII case and
/// whitespace allowed before `(`: the text between the parentheses.
pub open spec fn spec_strip_func(s: Seq<char>, name: Seq<char>) -> Option<Seq<char>> {
    if name.len() <= s.len() && lower_chars(s).subrange(0, name.len() as int) == name {
        let rest = trim_start(s.subrange(name.len() as int, s.len() as int));
        if rest.len() > 0 && rest[0] == '(' {
            let r2 = rest.subrange(1, rest.len() as int);
            if r2.len() > 0 && r2[r2.len() - 1] == ')' {
                Some(r2.subrange(0, r2.len() - 1))
            } else {
                None
            }
        } else {
            None
        }
    } else {
        None
    }
}

/// One `rgb()` channel (already trimmed): `N%` or an integer 0..=255
/// written as an optional `+` and decimal digits.
pub open spec fn spec_component(c: Seq<char>) -> Option<SpecChannel> {
    if c.len() > 0 && c[c.len() - 1] == '%' {
        Some(SpecChannel::Percent(trim(c.subrange(0, c.len() - 1))))
    } else {
        match spec_parse_u32(encode_utf8(c), 10) {
            Some(v) => if v <= 255 {
                Some(SpecChannel::Byte(v as u8))
            } else {
                None
            },
            None => None,
        }
    }
}

/// The three channels of `r, g, b` (the first three comma-separated parts).
pub open spec fn spec_channels(parts: Seq<Seq<char>>) -> Option<(SpecChannel, SpecChannel, SpecChannel)> {
    match (
        spec_component(trim(parts[0])),
        spec_component(trim(parts[1])),
        spec_component(trim(parts[2])),
    ) {
        (Some(r), Some(g), Some(b)) => Some((r, g, b)),
        _ => None,
    }
}

/// The inside of `rgb(...)`: exactly three channels.
pub open spec fn spec_parse_rgb(inner: Seq<char>) -> Option<SpecColor> {
    let parts = split_on(inner, ',');
    if parts.len() != 3 {
        None
    } else {
        match spec_channels(parts) {
            Some((r, g, b)) => Some(SpecColor::Functional { r, g, b, alpha: None }),
            None => None,
        }
    }
}

/// The inside of `rgba(...)`: three channels and an alpha.
pub open spec fn spec_parse_rgba(inner: Seq<char>) -> Option<SpecColor> {
    let parts = split_on(inner, ',');
    if parts.len() != 4 {
        None
    } else {
        match spec_channels(parts) {
            Some((r, g, b)) => Some(SpecColor::Functional { r, g, b, alpha: Some(trim(parts[3])) }),
            None => None,
        }
    }
}

// ------------------------------------------------------------------
// The whole syntax
// ------------------------------------------------------------------

/// `none`, in any ASCII case.
pub open spec fn is_none_word(t: Seq<char>) -> bool {
    t.len() == 4 && lower_char(t[0]) == 'n' && lower_char(t[1]) == 'o' && lower_char(t[2]) == 'n'
        && lower_char(t[3]) == 'e'
}

/// What the colour text `s` denotes; `None` for `none` and for text that is
/// not a colour.
pub open spec fn spec_parse_color(s: Seq<char>) -> Option<SpecColor> {
    let t = trim(s);
    if is_none_word(t) {
        None
    } else if t.len() > 0 && t[0] == '#' {
        match spec_parse_hex(encode_utf8(t).subrange(1, encode_utf8(t).len() as int)) {
            Some(c) => Some(SpecColor::Solid(c)),
            None => None,
        }
    } else {
        match spec_strip_func(t, "rgba"@) {
            Some(inner) => spec_parse_rgba(inner),
            None => match spec_strip_func(t, "rgb"@) {
                Some(inner) => spec_parse_rgb(inner),
                None => match named_color(lower_chars(t)) {
                    Some((r, g, b)) => Some(SpecColor::Solid(Color { r, g, b, a: 255 })),
                    None => None,
                },
            },
        }
    }
}

/// The CSS named colours (lower case) and their RGB values.
pub open spec fn named_color(name: Seq<char>) -> Option<(u8, u8, u8)> {
    if name == "aliceblue"@ {
        Some((240u8, 248u8, 255u8))
    } else if name == "antiquewhite"@ {
        Some((250u8, 235u8, 215u8))
    } else if name == "aqua"@ {
        Some((0u8, 255u8, 255u8))
    } else if name == "aquamarine"@ {
        Some((127u8, 255u8, 212u8))
    } else if name == "azure"@ {
        Some((240u8, 255u8, 255u8))
    } else if name == "beige"@ {
        Some((245u8, 245u8, 220u8))
    } else if name == "bisque"@ {
        Some((255u8, 228u8, 196u8))
    } else if name == "black"@ {
        Some((0u8, 0u8, 0u8))
    } else if name == "blanchedalmond"@ {
        Some((255u8, 235u8, 205u8))
    } else if name == "blue"@ {
        Some((0u8, 0u8, 255u8))
    } else if name == "blueviolet"@ {
        Some((138u8, 43u8, 226u8))
    } else if name == "brown"@ {
        Some((165u8, 42u8, 42u8))
    } else if name == "burlywood"@ {
        Some((222u8, 184u8, 135u8))
    } else if name == "cadetblue"@ {
        Some((95u8, 158u8, 160u8))
    } else if name == "chartreuse"@ {
        Some((127u8, 255u8, 0u8))
    } else if name == "chocolate"@ {
        Some((210u8, 105u8, 30u8))
    } else if name == "coral"@ {
        Some((255u8, 127u8, 80u8))
    } else if name == "cornflowerblue"@ {
        Some((100u8, 149u8, 237u8))
    } else if name == "cornsilk"@ {
        Some((255u8, 248u8, 220u8))
    } else if name == "crimson"@ {
        Some((220u8, 20u8, 60u8))
    } else if name == "cyan"@ {
        Some((0u8, 255u8, 255u8))
    } else if name == "darkblue"@ {
        Some((0u8, 0u8, 139u8))
    } else if name == "darkcyan"@ {
        Some((0u8, 139u8, 139u8))
    } else if name == "darkgoldenrod"@ {
        Some((184u8, 134u8, 11u8))
    } else if name == "darkgray"@ {
        Some((169u8, 169u8, 169u8))
    } else if name == "darkgreen"@ {
        Some((0u8, 100u8, 0u8))
    } else if name == "darkgrey"@ {
        Some((169u8, 169u8, 169u8))
    } else if name == "darkkhaki"@ {
        Some((189u8, 183u8, 107u8))
    } else if name == "darkmagenta"@ {
        Some((139u8, 0u8, 139u8))
    } else if name == "darkolivegreen"@ {
        Some((85u8, 107u8, 47u8))
    } else if name == "darkorange"@ {
        Some((255u8, 140u8, 0u8))
    } else if name == "darkorchid"@ {
        Some((153u8, 50u8, 204u8))
    } else if name == "darkred"@ {
        Some((139u8, 0u8, 0u8))
    } else if name == "darksalmon"@ {
        Some((233u8, 150u8, 122u8))
    } else if name == "darkseagreen"@ {
        Some((143u8, 188u8, 143u8))
    } else if name == "darkslateblue"@ {
        Some((72u8, 61u8, 139u8))
    } else if name == "darkslategray"@ {
        Some((47u8, 79u8, 79u8))
    } else if name == "darkslategrey"@ {
        Some((47u8, 79u8, 79u8))
    } else if name == "darkturquoise"@ {
        Some((0u8, 206u8, 209u8))
    } else if name == "darkviolet"@ {
        Some((148u8, 0u8, 211u8))
    } else if name == "deeppink"@ {
        Some((255u8, 20u8, 147u8))
    } else if name == "deepskyblue"@ {
        Some((0u8, 191u8, 255u8))
    } else if name == "dimgray"@ {
        Some((105u8, 105u8, 105u8))
    } else if name == "dimgrey"@ {
        Some((105u8, 105u8, 105u8))
    } else if name == "dodgerblue"@ {
        Some((30u8, 144u8, 255u8))
    } else if name == "firebrick"@ {
        Some((178u8, 34u8, 34u8))
    } else if name == "floralwhite"@ {
        Some((255u8, 250u8, 240u8))
    } else if name == "forestgreen"@ {
        Some((34u8, 139u8, 34u8))
    } else if name == "fuchsia"@ {
        Some((255u8, 0u8, 255u8))
    } else if name == "gainsboro"@ {
        Some((220u8, 220u8, 220u8))
    } else if name == "ghostwhite"@ {
        Some((248u8, 248u8, 255u8))
    } else if name == "gold"@ {
        Some((255u8, 215u8, 0u8))
    } else if name == "goldenrod"@ {
        Some((218u8, 165u8, 32u8))
    } else if name == "gray"@ {
        Some((128u8, 128u8, 128u8))
    } else if name == "green"@ {
        Some((0u8, 128u8, 0u8))
    } else if name == "greenyellow"@ {
        Some((173u8, 255u8, 47u8))
    } else if name == "grey"@ {
        Some((128u8, 128u8, 128u8))
    } else if name == "honeydew"@ {
        Some((240u8, 255u8, 240u8))
    } else if name == "hotpink"@ {
        Some((255u8, 105u8, 180u8))
    } else if name == "indianred"@ {
        Some((205u8, 92u8, 92u8))
    } else if name == "indigo"@ {
        Some((75u8, 0u8, 130u8))
    } else if name == "ivory"@ {
        Some((255u8, 255u8, 240u8))
    } else if name == "khaki"@ {
        Some((240u8, 230u8, 140u8))
    } else if name == "lavender"@ {
        Some((230u8, 230u8, 250u8))
    } else if name == "lavenderblush"@ {
        Some((255u8, 240u8, 245u8))
    } else if name == "lawngreen"@ {
        Some((124u8, 252u8, 0u8))
    } else if name == "lemonchiffon"@ {
        Some((255u8, 250u8, 205u8))
    } else if name == "lightblue"@ {
        Some((173u8, 216u8, 230u8))
    } else if name == "lightcoral"@ {
        Some((240u8, 128u8, 128u8))
    } else if name == "lightcyan"@ {
        Some((224u8, 255u8, 255u8))
    } else if name == "lightgoldenrodyellow"@ {
        Some((250u8, 250u8, 210u8))
    } else if name == "lightgray"@ {
        Some((211u8, 211u8, 211u8))
    } else if name == "lightgreen"@ {
        Some((144u8, 238u8, 144u8))
    } else if name == "lightgrey"@ {
        Some((211u8, 211u8, 211u8))
    } else if name == "lightpink"@ {
        Some((255u8, 182u8, 193u8))
    } else if name == "lightsalmon"@ {
        Some((255u8, 160u8, 122u8))
    } else if name == "lightseagreen"@ {
        Some((32u8, 178u8, 170u8))
    } else if name == "lightskyblue"@ {
        Some((135u8, 206u8, 250u8))
    } else if name == "lightslategray"@ {
        Some((119u8, 136u8, 153u8))
    } else if name == "lightslategrey"@ {
        Some((119u8, 136u8, 153u8))
    } else if name == "lightsteelblue"@ {
        Some((176u8, 196u8, 222u8))
    } else if name == "lightyellow"@ {
        Some((255u8, 255u8, 224u8))
    } else if name == "lime"@ {
        Some((0u8, 255u8, 0u8))
    } else if name == "limegreen"@ {
        Some((50u8, 205u8, 50u8))
    } else if name == "linen"@ {
        Some((250u8, 240u8, 230u8))
    } else if name == "magenta"@ {
        Some((255u8, 0u8, 255u8))
    } else if name == "maroon"@ {
        Some((128u8, 0u8, 0u8))
    } else if name == "mediumaquamarine"@ {
        Some((102u8, 205u8, 170u8))
    } else if name == "mediumblue"@ {
        Some((0u8, 0u8, 205u8))
    } else if name == "mediumorchid"@ {
        Some((186u8, 85u8, 211u8))
    } else if name == "mediumpurple"@ {
        Some((147u8, 112u8, 219u8))
    } else if name == "mediumseagreen"@ {
        Some((60u8, 179u8, 113u8))
    } else if name == "mediumslateblue"@ {
        Some((123u8, 104u8, 238u8))
    } else if name == "mediumspringgreen"@ {
        Some((0u8, 250u8, 154u8))
    } else if name == "mediumturquoise"@ {
        Some((72u8, 209u8, 204u8))
    } else if name == "mediumvioletred"@ {
        Some((199u8, 21u8, 133u8))
    } else if name == "midnightblue"@ {
        Some((25u8, 25u8, 112u8))
    } else if name == "mintcream"@ {
        Some((245u8, 255u8, 250u8))
    } else if name == "mistyrose"@ {
        Some((255u8, 228u8, 225u8))
    } else if name == "moccasin"@ {
        Some((255u8, 228u8, 181u8))
    } else if name == "navajowhite"@ {
        Some((255u8, 222u8, 173u8))
    } else if name == "navy"@ {
        Some((0u8, 0u8, 128u8))
    } else if name == "oldlace"@ {
        Some((253u8, 245u8, 230u8))
    } else if name == "olive"@ {
        Some((128u8, 128u8, 0u8))
    } else if name == "olivedrab"@ {
        Some((107u8, 142u8, 35u8))
    } else if name == "orange"@ {
        Some((255u8, 165u8, 0u8))
    } else if name == "orangered"@ {
        Some((255u8, 69u8, 0u8))
    } else if name == "orchid"@ {
        Some((218u8, 112u8, 214u8))
    } else if name == "palegoldenrod"@ {
        Some((238u8, 232u8, 170u8))
    } else if name == "palegreen"@ {
        Some((152u8, 251u8, 152u8))
    } else if name == "paleturquoise"@ {
        Some((175u8, 238u8, 238u8))
    } else if name == "palevioletred"@ {
        Some((219u8, 112u8, 147u8))
    } else if name == "papayawhip"@ {
        Some((255u8, 239u8, 213u8))
    } else if name == "peachpuff"@ {
        Some((255u8, 218u8, 185u8))
    } else if name == "peru"@ {
        Some((205u8, 133u8, 63u8))
    } else if name == "pink"@ {
        Some((255u8, 192u8, 203u8))
    } else if name == "plum"@ {
        Some((221u8, 160u8, 221u8))
    } else if name == "powderblue"@ {
        Some((176u8, 224u8, 230u8))
    } else if name == "purple"@ {
        Some((128u8, 0u8, 128u8))
    } else if name == "rebeccapurple"@ {
        Some((102u8, 51u8, 153u8))
    } else if name == "red"@ {
        Some((255u8, 0u8, 0u8))
    } else if name == "rosybrown"@ {
        Some((188u8, 143u8, 143u8))
    } else if name == "royalblue"@ {
        Some((65u8, 105u8, 225u8))
    } else if name == "saddlebrown"@ {
        Some((139u8, 69u8, 19u8))
    } else if name == "salmon"@ {
        Some((250u8, 128u8, 114u8))
    } else if name == "sandybrown"@ {
        Some((244u8, 164u8, 96u8))
    } else if name == "seagreen"@ {
        Some((46u8, 139u8, 87u8))
    } else if name == "seashell"@ {
        Some((255u8, 245u8, 238u8))
    } else if name == "sienna"@ {
        Some((160u8, 82u8, 45u8))
    } else if name == "silver"@ {
        Some((192u8, 192u8, 192u8))
    } else if name == "skyblue"@ {
        Some((135u8, 206u8, 235u8))
    } else if name == "slateblue"@ {
        Some((106u8, 90u8, 205u8))
    } else if name == "slategray"@ {
        Some((112u8, 128u8, 144u8))
    } else if name == "slategrey"@ {
        Some((112u8, 128u8, 144u8))
    } else if name == "snow"@ {
        Some((255u8, 250u8, 250u8))
    } else if name == "springgreen"@ {
        Some((0u8, 255u8, 127u8))
    } else if name == "steelblue"@ {
        Some((70u8, 130u8, 180u8))
    } else if name == "tan"@ {
        Some((210u8, 180u8, 140u8))
    } else if name == "teal"@ {
        Some((0u8, 128u8, 128u8))
    } else if name == "thistle"@ {
        Some((216u8, 191u8, 216u8))
    } else if name == "tomato"@ {
        Some((255u8, 99u8, 71u8))
    } else if name == "turquoise"@ {
        Some((64u8, 224u8, 208u8))
    } else if name == "violet"@ {
        Some((238u8, 130u8, 238u8))
    } else if name == "wheat"@ {
        Some((245u8, 222u8, 179u8))
    } else if name == "white"@ {
        Some((255u8, 255u8, 255u8))
    } else if name == "whitesmoke"@ {
        Some((245u8, 245u8, 245u8))
    } else if name == "yellow"@ {
        Some((255u8, 255u8, 0u8))
    } else if name == "yellowgreen"@ {
        Some((154u8, 205u8, 50u8))
    } else {
        None
    }
}

/// Looks a lower-case name up in the CSS named colours.
fn lookup_named_lower(name: &str) -> (r: Option<(u8, u8, u8)>)
    ensures
        r == named_color(name@),
{
    if str_eq(name, "aliceblue") {
        Some((240u8, 248u8, 255u8))
    } else if str_eq(name, "antiquewhite") {
        Some((250u8, 235u8, 215u8))
    } else if str_eq(name, "aqua") {
        Some((0u8, 255u8, 255u8))
    } else if str_eq(name, "aquamarine") {
        Some((127u8, 255u8, 212u8))
    } else if str_eq(name, "azure") {
        Some((240u8, 255u8, 255u8))
    } else if str_eq(name, "beige") {
        Some((245u8, 245u8, 220u8))
    } else if str_eq(name, "bisque") {
        Some((255u8, 228u8, 196u8))
    } else if str_eq(name, "black") {
        Some((0u8, 0u8, 0u8))
    } else if str_eq(name, "blanchedalmond") {
        Some((255u8, 235u8, 205u8))
    } else if str_eq(name, "blue") {
        Some((0u8, 0u8, 255u8))
    } else if str_eq(name, "blueviolet") {
        Some((138u8, 43u8, 226u8))
    } else if str_eq(name, "brown") {
        Some((165u8, 42u8, 42u8))
    } else if str_eq(name, "burlywood") {
        Some((222u8, 184u8, 135u8))
    } else if str_eq(name, "cadetblue") {
        Some((95u8, 158u8, 160u8))
    } else if str_eq(name, "chartreuse") {
        Some((127u8, 255u8, 0u8))
    } else if str_eq(name, "chocolate") {
        Some((210u8, 105u8, 30u8))
    } else if str_eq(name, "coral") {
        Some((255u8, 127u8, 80u8))
    } else if str_eq(name, "cornflowerblue") {
        Some((100u8, 149u8, 237u8))
    } else if str_eq(name, "cornsilk") {
        Some((255u8, 248u8, 220u8))
    } else if str_eq(name, "crimson") {
        Some((220u8, 20u8, 60u8))
    } else if str_eq(name, "cyan") {
        Some((0u8, 255u8, 255u8))
    } else if str_eq(name, "darkblue") {
        Some((0u8, 0u8, 139u8))
    } else if str_eq(name, "darkcyan") {
        Some((0u8, 139u8, 139u8))
    } else if str_eq(name, "darkgoldenrod") {
        Some((184u8, 134u8, 11u8))
    } else if str_eq(name, "darkgray") {
        Some((169u8, 169u8, 169u8))
    } else if str_eq(name, "darkgreen") {
        Some((0u8, 100u8, 0u8))
    } else if str_eq(name, "darkgrey") {
        Some((169u8, 169u8, 169u8))
    } else if str_eq(name, "darkkhaki") {
        Some((189u8, 183u8, 107u8))
    } else if str_eq(name, "darkmagenta") {
        Some((139u8, 0u8, 139u8))
    } else if str_eq(name, "darkolivegreen") {
        Some((85u8, 107u8, 47u8))
    } else if str_eq(name, "darkorange") {
        Some((255u8, 140u8, 0u8))
    } else if str_eq(name, "darkorchid") {
        Some((153u8, 50u8, 204u8))
    } else if str_eq(name, "darkred") {
        Some((139u8, 0u8, 0u8))
    } else if str_eq(name, "darksalmon") {
        Some((233u8, 150u8, 122u8))
    } else if str_eq(name, "darkseagreen") {
        Some((143u8, 188u8, 143u8))
    } else if str_eq(name, "darkslateblue") {
        Some((72u8, 61u8, 139u8))
    } else if str_eq(name, "darkslategray") {
        Some((47u8, 79u8, 79u8))
    } else if str_eq(name, "darkslategrey") {
        Some((47u8, 79u8, 79u8))
    } else if str_eq(name, "darkturquoise") {
        Some((0u8, 206u8, 209u8))
    } else if str_eq(name, "darkviolet") {
        Some((148u8, 0u8, 211u8))
    } else if str_eq(name, "deeppink") {
        Some((255u8, 20u8, 147u8))
    } else if str_eq(name, "deepskyblue") {
        Some((0u8, 191u8, 255u8))
    } else if str_eq(name, "dimgray") {
        Some((105u8, 105u8, 105u8))
    } else if str_eq(name, "dimgrey") {
        Some((105u8, 105u8, 105u8))
    } else if str_eq(name, "dodgerblue") {
        Some((30u8, 144u8, 255u8))
    } else if str_eq(name, "firebrick") {
        Some((178u8, 34u8, 34u8))
    } else if str_eq(name, "floralwhite") {
        Some((255u8, 250u8, 240u8))
    } else if str_eq(name, "forestgreen") {
        Some((34u8, 139u8, 34u8))
    } else if str_eq(name, "fuchsia") {
        Some((255u8, 0u8, 255u8))
    } else if str_eq(name, "gainsboro") {
        Some((220u8, 220u8, 220u8))
    } else if str_eq(name, "ghostwhite") {
        Some((248u8, 248u8, 255u8))
    } else if str_eq(name, "gold") {
        Some((255u8, 215u8, 0u8))
    } else if str_eq(name, "goldenrod") {
        Some((218u8, 165u8, 32u8))
    } else if str_eq(name, "gray") {
        Some((128u8, 128u8, 128u8))
    } else if str_eq(name, "green") {
        Some((0u8, 128u8, 0u8))
    } else if str_eq(name, "greenyellow") {
        Some((173u8, 255u8, 47u8))
    } else if str_eq(name, "grey") {
        Some((128u8, 128u8, 128u8))
    } else if str_eq(name, "honeydew") {
        Some((240u8, 255u8, 240u8))
    } else if str_eq(name, "hotpink") {
        Some((255u8, 105u8, 180u8))
    } else if str_eq(name, "indianred") {
        Some((205u8, 92u8, 92u8))
    } else if str_eq(name, "indigo") {
        Some((75u8, 0u8, 130u8))
    } else if str_eq(name, "ivory") {
        Some((255u8, 255u8, 240u8))
    } else if str_eq(name, "khaki") {
        Some((240u8, 230u8, 140u8))
    } else if str_eq(name, "lavender") {
        Some((230u8, 230u8, 250u8))
    } else if str_eq(name, "lavenderblush") {
        Some((255u8, 240u8, 245u8))
    } else if str_eq(name, "lawngreen") {
        Some((124u8, 252u8, 0u8))
    } else if str_eq(name, "lemonchiffon") {
        Some((255u8, 250u8, 205u8))
    } else if str_eq(name, "lightblue") {
        Some((173u8, 216u8, 230u8))
    } else if str_eq(name, "lightcoral") {
        Some((240u8, 128u8, 128u8))
    } else if str_eq(name, "lightcyan") {
        Some((224u8, 255u8, 255u8))
    } else if str_eq(name, "lightgoldenrodyellow") {
        Some((250u8, 250u8, 210u8))
    } else if str_eq(name, "lightgray") {
        Some((211u8, 211u8, 211u8))
    } else if str_eq(name, "lightgreen") {
        Some((144u8, 238u8, 144u8))
    } else if str_eq(name, "lightgrey") {
        Some((211u8, 211u8, 211u8))
    } else if str_eq(name, "lightpink") {
        Some((255u8, 182u8, 193u8))
    } else if str_eq(name, "lightsalmon") {
        Some((255u8, 160u8, 122u8))
    } else if str_eq(name, "lightseagreen") {
        Some((32u8, 178u8, 170u8))
    } else if str_eq(name, "lightskyblue") {
        Some((135u8, 206u8, 250u8))
    } else if str_eq(name, "lightslategray") {
        Some((119u8, 136u8, 153u8))
    } else if str_eq(name, "lightslategrey") {
        Some((119u8, 136u8, 153u8))
    } else if str_eq(name, "lightsteelblue") {
        Some((176u8, 196u8, 222u8))
    } else if str_eq(name, "lightyellow") {
        Some((255u8, 255u8, 224u8))
    } else if str_eq(name, "lime") {
        Some((0u8, 255u8, 0u8))
    } else if str_eq(name, "limegreen") {
        Some((50u8, 205u8, 50u8))
    } else if str_eq(name, "linen") {
        Some((250u8, 240u8, 230u8))
    } else if str_eq(name, "magenta") {
        Some((255u8, 0u8, 255u8))
    } else if str_eq(name, "maroon") {
        Some((128u8, 0u8, 0u8))
    } else if str_eq(name, "mediumaquamarine") {
        Some((102u8, 205u8, 170u8))
    } else if str_eq(name, "mediumblue") {
        Some((0u8, 0u8, 205u8))
    } else if str_eq(name, "mediumorchid") {
        Some((186u8, 85u8, 211u8))
    } else if str_eq(name, "mediumpurple") {
        Some((147u8, 112u8, 219u8))
    } else if str_eq(name, "mediumseagreen") {
        Some((60u8, 179u8, 113u8))
    } else if str_eq(name, "mediumslateblue") {
        Some((123u8, 104u8, 238u8))
    } else if str_eq(name, "mediumspringgreen") {
        Some((0u8, 250u8, 154u8))
    } else if str_eq(name, "mediumturquoise") {
        Some((72u8, 209u8, 204u8))
    } else if str_eq(name, "mediumvioletred") {
        Some((199u8, 21u8, 133u8))
    } else if str_eq(name, "midnightblue") {
        Some((25u8, 25u8, 112u8))
    } else if str_eq(name, "mintcream") {
        Some((245u8, 255u8, 250u8))
    } else if str_eq(name, "mistyrose") {
        Some((255u8, 228u8, 225u8))
    } else if str_eq(name, "moccasin") {
        Some((255u8, 228u8, 181u8))
    } else if str_eq(name, "navajowhite") {
        Some((255u8, 222u8, 173u8))
    } else if str_eq(name, "navy") {
        Some((0u8, 0u8, 128u8))
    } else if str_eq(name, "oldlace") {
        Some((253u8, 245u8, 230u8))
    } else if str_eq(name, "olive") {
        Some((128u8, 128u8, 0u8))
    } else if str_eq(name, "olivedrab") {
        Some((107u8, 142u8, 35u8))
    } else if str_eq(name, "orange") {
        Some((255u8, 165u8, 0u8))
    } else if str_eq(name, "orangered") {
        Some((255u8, 69u8, 0u8))
    } else if str_eq(name, "orchid") {
        Some((218u8, 112u8, 214u8))
    } else if str_eq(name, "palegoldenrod") {
        Some((238u8, 232u8, 170u8))
    } else if str_eq(name, "palegreen") {
        Some((152u8, 251u8, 152u8))
    } else if str_eq(name, "paleturquoise") {
        Some((175u8, 238u8, 238u8))
    } else if str_eq(name, "palevioletred") {
        Some((219u8, 112u8, 147u8))
    } else if str_eq(name, "papayawhip") {
        Some((255u8, 239u8, 213u8))
    } else if str_eq(name, "peachpuff") {
        Some((255u8, 218u8, 185u8))
    } else if str_eq(name, "peru") {
        Some((205u8, 133u8, 63u8))
    } else if str_eq(name, "pink") {
        Some((255u8, 192u8, 203u8))
    } else if str_eq(name, "plum") {
        Some((221u8, 160u8, 221u8))
    } else if str_eq(name, "powderblue") {
        Some((176u8, 224u8, 230u8))
    } else if str_eq(name, "purple") {
        Some((128u8, 0u8, 128u8))
    } else if str_eq(name, "rebeccapurple") {
        Some((102u8, 51u8, 153u8))
    } else if str_eq(name, "red") {
        Some((255u8, 0u8, 0u8))
    } else if str_eq(name, "rosybrown") {
        Some((188u8, 143u8, 143u8))
    } else if str_eq(name, "royalblue") {
        Some((65u8, 105u8, 225u8))
    } else if str_eq(name, "saddlebrown") {
        Some((139u8, 69u8, 19u8))
    } else if str_eq(name, "salmon") {
        Some((250u8, 128u8, 114u8))
    } else if str_eq(name, "sandybrown") {
        Some((244u8, 164u8, 96u8))
    } else if str_eq(name, "seagreen") {
        Some((46u8, 139u8, 87u8))
    } else if str_eq(name, "seashell") {
        Some((255u8, 245u8, 238u8))
    } else if str_eq(name, "sienna") {
        Some((160u8, 82u8, 45u8))
    } else if str_eq(name, "silver") {
        Some((192u8, 192u8, 192u8))
    } else if str_eq(name, "skyblue") {
        Some((135u8, 206u8, 235u8))
    } else if str_eq(name, "slateblue") {
        Some((106u8, 90u8, 205u8))
    } else if str_eq(name, "slategray") {
        Some((112u8, 128u8, 144u8))
    } else if str_eq(name, "slategrey") {
        Some((112u8, 128u8, 144u8))
    } else if str_eq(name, "snow") {
        Some((255u8, 250u8, 250u8))
    } else if str_eq(name, "springgreen") {
        Some((0u8, 255u8, 127u8))
    } else if str_eq(name, "steelblue") {
        Some((70u8, 130u8, 180u8))
    } else if str_eq(name, "tan") {
        Some((210u8, 180u8, 140u8))
    } else if str_eq(name, "teal") {
        Some((0u8, 128u8, 128u8))
    } else if str_eq(name, "thistle") {
        Some((216u8, 191u8, 216u8))
    } else if str_eq(name, "tomato") {
        Some((255u8, 99u8, 71u8))
    } else if str_eq(name, "turquoise") {
        Some((64u8, 224u8, 208u8))
    } else if str_eq(name, "violet") {
        Some((238u8, 130u8, 238u8))
    } else if str_eq(name, "wheat") {
        Some((245u8, 222u8, 179u8))
    } else if str_eq(name, "white") {
        Some((255u8, 255u8, 255u8))
    } else if str_eq(name, "whitesmoke") {
        Some((245u8, 245u8, 245u8))
    } else if str_eq(name, "yellow") {
        Some((255u8, 255u8, 0u8))
    } else if str_eq(name, "yellowgreen") {
        Some((154u8, 205u8, 50u8))
    } else {
        None
    }
}

// ------------------------------------------------------------------
// Executable part
// ------------------------------------------------------------------

/// The value 0..=15 of one hex digit.
pub fn parse_hex_digit(c: u8) -> (r: Option<u8>)
    ensures
        r == hex_digit_value(c),
{
    if 0x30u8 <= c && c <= 0x39u8 {
        Some(c - 0x30u8)
    } else if 0x61u8 <= c && c <= 0x66u8 {
        Some(c - 0x61u8 + 10)
    } else if 0x41u8 <= c && c <= 0x46u8 {
        Some(c - 0x41u8 + 10)
    } else {
        None
    }
}

/// The byte written by the two hex digits at `h[i]`, `h[i + 1]`.
fn parse_hex_byte(h: &[u8], i: usize) -> (r: Option<u8>)
    requires
        i + 1 < h@.len(),
    ensures
        r == spec_hex_byte(h@, i as int),
{
    let hi = match parse_hex_digit(h[i]) {
        Some(v) => v,
        None => {
            return None;
        },
    };
    let lo = match parse_hex_digit(h[i + 1]) {
        Some(v) => v,
        None => {
            return None;
        },
    };
    Some(hi * 16 + lo)
}

/// A hex colour; `hex` is what follows `#`.
fn parse_hex(hex: &[u8]) -> (r: Option<Color>)
    ensures
        r == spec_parse_hex(hex@),
{
    if hex.len() == 3 {
        let r = match parse_hex_digit(hex[0]) {
            Some(v) => v,
            None => {
                return None;
            },
        };
        let g = match parse_hex_digit(hex[1]) {
            Some(v) => v,
            None => {
                return None;
            },
        };
        let b = match parse_hex_digit(hex[2]) {
            Some(v) => v,
            None => {
                return None;
            },
        };
        Some(Color { r: r * 17, g: g * 17, b: b * 17, a: 255 })
    } else if hex.len() == 6 || hex.len() == 8 {
        let r = match parse_hex_byte(hex, 0) {
            Some(v) => v,
            None => {
                return None;
            },
        };
        let g = match parse_hex_byte(hex, 2) {
            Some(v) => v,
            None => {
                return None;
            },
        };
        let b = match parse_hex_byte(hex, 4) {
            Some(v) => v,
            None => {
                return None;
            },
        };
        if hex.len() == 6 {
            Some(Color { r, g, b, a: 255 })
        } else {
            match parse_hex_byte(hex, 6) {
                Some(a) => Some(Color { r, g, b, a }),
                None => None,
            }
        }
    } else {
        None
    }
}

/// Whether the lower-cased `s` begins with the ASCII `name`, and if so the
/// text between the parentheses of `name(...)`.
fn strip_func<'a>(s: &'a str, name: &str) -> (r: Option<&'a str>)
    requires
        name@ == lower_chars(name@),
    ensures
        match r {
            Some(x) => spec_strip_func(s@, name@) == Some(x@),
            None => spec_strip_func(s@, name@) is None,
        },
{
    let n = name.unicode_len();
    let len = s.unicode_len();
    if n > len {
        return None;
    }
    let mut i: usize = 0;
    while i < n
        invariant
            n == name@.len(),
            n <= len,
            len == s@.len(),
            i <= n,
            forall|j: int| 0 <= j < i ==> lower_char(s@[j]) == name@[j],
        decreases n - i,
    {
        if ascii_lower_char(s.get_char(i)) != name.get_char(i) {
            proof {
                assert(lower_chars(s@).subrange(0, n as int)[i as int] != name@[i as int]);
            }
            return None;
        }
        i += 1;
    }
    proof {
        assert(lower_chars(s@).subrange(0, n as int) =~= name@);
    }
    let rest = trim_start_str(s.substring_char(n, len));
    let rn = rest.unicode_len();
    if rn == 0 || rest.get_char(0) != '(' {
        return None;
    }
    let r2 = rest.substring_char(1, rn);
    let r2n = rest.unicode_len() - 1;
    if r2n == 0 || r2.get_char(r2n - 1) != ')' {
        return None;
    }
    Some(r2.substring_char(0, r2n - 1))
}

/// One `rgb()` channel, trimmed: a percentage or an integer 0..=255.
fn parse_color_component(c: &str) -> (r: Option<ColorChannel>)
    ensures
        match r {
            Some(ch) => spec_component(c@) == Some(ch@),
            None => spec_component(c@) is None,
        },
{
    let n = c.unicode_len();
    if n > 0 && c.get_char(n - 1) == '%' {
        let inner = trim_str(c.substring_char(0, n - 1));
        return Some(ColorChannel::Percent(inner.to_owned()));
    }
    match parse_u32_radix(c.as_bytes(), 10) {
        Some(v) => {
            if v <= 255 {
                Some(ColorChannel::Byte(v as u8))
            } else {
                None
            }
        },
        None => None,
    }
}

/// The first three comma-separated parts as channels.
fn parse_channels(parts: &Vec<&str>) -> (r: Option<(ColorChannel, ColorChannel, ColorChannel)>)
    requires
        parts@.len() >= 3,
    ensures
        match r {
            Some((a, b, c)) => spec_channels(parts@.map_values(|p: &str| p@)) == Some(
                (a@, b@, c@),
            ),
            None => spec_channels(parts@.map_values(|p: &str| p@)) is None,
        },
{
    let ghost pv = parts@.map_values(|p: &str| p@);
    proof {
        assert(pv[0] == parts@[0]@);
        assert(pv[1] == parts@[1]@);
        assert(pv[2] == parts@[2]@);
    }
    let r = match parse_color_component(trim_str(parts[0])) {
        Some(v) => v,
        None => {
            return None;
        },
    };
    let g = match parse_color_component(trim_str(parts[1])) {
        Some(v) => v,
        None => {
            return None;
        },
    };
    let b = match parse_color_component(trim_str(parts[2])) {
        Some(v) => v,
        None => {
            return None;
        },
    };
    Some((r, g, b))
}

/// The inside of `rgb(r, g, b)`.
fn parse_rgb(inner: &str) -> (r: Option<ParsedColor>)
    ensures
        match r {
            Some(c) => spec_parse_rgb(inner@) == Some(c@),
            None => spec_parse_rgb(inner@) is None,
        },
{
    let parts = split_str(inner, ',');
    proof {
        assert(parts@.map_values(|p: &str| p@) =~= split_on(inner@, ','));
    }
    if parts.len() != 3 {
        return None;
    }
    match parse_channels(&parts) {
        Some((r, g, b)) => Some(ParsedColor::Functional { r, g, b, alpha: None }),
        None => None,
    }
}

/// The inside of `rgba(r, g, b, a)`.
fn parse_rgba(inner: &str) -> (r: Option<ParsedColor>)
    ensures
        match r {
            Some(c) => spec_parse_rgba(inner@) == Some(c@),
            None => spec_parse_rgba(inner@) is None,
        },
{
    let parts = split_str(inner, ',');
    proof {
        assert(parts@.map_values(|p: &str| p@) =~= split_on(inner@, ','));
    }
    if parts.len() != 4 {
        return None;
    }
    match parse_channels(&parts) {
        Some((r, g, b)) => {
            let alpha = trim_str(parts[3]).to_owned();
            Some(ParsedColor::Functional { r, g, b, alpha: Some(alpha) })
        },
        None => None,
    }
}

/// Looks a colour name up among the CSS named colours, without regard to
/// ASCII case.
pub fn lookup_named_color(name: &str) -> (r: Option<Color>)
    ensures
        r == (match named_color(lower_chars(name@)) {
            Some((r, g, b)) => Some(Color { r, g, b, a: 255 }),
            None => None,
        }),
{
    let lower = lower_string(name);
    match lookup_named_lower(lower.as_str()) {
        Some((r, g, b)) => Some(Color { r, g, b, a: 255 }),
        None => None,
    }
}

/// `str::to_ascii_lowercase`.
fn lower_string(s: &str) -> (r: String)
    ensures
        r@ == lower_chars(s@),
{
    let n = s.unicode_len();
    let mut out = String::new();
    let mut i: usize = 0;
    while i < n
        invariant
            n == s@.len(),
            i <= n,
            out@ == lower_chars(s@.subrange(0, i as int)),
        decreases n - i,
    {
        let c = ascii_lower_char(s.get_char(i));
        crate::text::push_char(&mut out, c);
        proof {
            assert(lower_chars(s@.subrange(0, i + 1)) =~= lower_chars(s@.subrange(0, i as int)).push(c));
        }
        i += 1;
    }
    proof {
        assert(s@.subrange(0, n as int) =~= s@);
    }
    out
}

/// Whether the text is `none` in any ASCII case.
fn none_word(t: &str) -> (r: bool)
    ensures
        r == is_none_word(t@),
{
    t.unicode_len() == 4 && ascii_lower_char(t.get_char(0)) == 'n' && ascii_lower_char(
        t.get_char(1),
    ) == 'o' && ascii_lower_char(t.get_char(2)) == 'n' && ascii_lower_char(t.get_char(3)) == 'e'
}

/// The bytes that follow the leading `#` of a trimmed colour text, with the
/// facts that make them well-formed UTF-8.
fn hex_part(t: &str) -> (r: &[u8])
    requires
        t@.len() > 0,
        t@[0] == '#',
    ensures
        r@ == encode_utf8(t@).subrange(1, encode_utf8(t@).len() as int),
{
    let b = t.as_bytes();
    proof {
        encode_utf8_first_scalar(t@);
    }
    &b[1..b.len()]
}

/// Reads a colour.
///
/// Accepted: `#RGB` (each digit doubled), `#RRGGBB`, `#RRGGBBAA`,
/// `rgb(r, g, b)` with integers 0..=255 or percentages, `rgba(r, g, b, a)`,
/// and the 148 CSS named colours in any ASCII case. `none` and anything
/// else give `None`. Surrounding whitespace is ignored. The text after `#`
/// is read byte by byte: anything but 3, 6 or 8 hex digits gives `None`.
pub fn parse_color(s: &str) -> (r: Option<ParsedColor>)
    ensures
        match r {
            Some(c) => spec_parse_color(s@) == Some(c@),
            None => spec_parse_color(s@) is None,
        },
{
    let t = trim_str(s);
    if none_word(t) {
        return None;
    }
    if t.unicode_len() > 0 && t.get_char(0) == '#' {
        let h = hex_part(t);
        return match parse_hex(h) {
            Some(c) => Some(ParsedColor::Solid(c)),
            None => None,
        };
    }
    proof {
        reveal_strlit("rgba");
        reveal_strlit("rgb");
        assert("rgba"@ =~= lower_chars("rgba"@));
        assert("rgb"@ =~= lower_chars("rgb"@));
    }
    if let Some(inner) = strip_func(t, "rgba") {
        return parse_rgba(inner);
    }
    if let Some(inner) = strip_func(t, "rgb") {
        return parse_rgb(inner);
    }
    match lookup_named_color(t) {
        Some(c) => Some(ParsedColor::Solid(c)),
        None => None,
    }
}

/// `#RGB` denotes the colour of `#RRGGBB` with each digit written twice.
pub proof fn short_hex_doubles_digits(h: Seq<u8>)
    requires
        h.len() == 3,
    ensures
        spec_parse_hex(h) == spec_parse_hex(seq![h[0], h[0], h[1], h[1], h[2], h[2]]),
{
    let d = seq![h[0], h[0], h[1], h[1], h[2], h[2]];
    assert(d[0] == h[0] && d[1] == h[0] && d[2] == h[1] && d[3] == h[1] && d[4] == h[2] && d[5]
        == h[2]);
}

/// Eight digits that end in `ff` (or `FF`) denote the colour of their first
/// six: full alpha, as six digits give.
pub proof fn opaque_alpha_digits(h: Seq<u8>, f: u8)
    requires
        h.len() == 6,
        f == 0x66u8 || f == 0x46u8,
    ensures
        spec_parse_hex(h + seq![f, f]) == spec_parse_hex(h),
{
    let x = h + seq![f, f];
    assert(x[0] == h[0] && x[1] == h[1] && x[2] == h[2] && x[3] == h[3] && x[4] == h[4] && x[5]
        == h[5] && x[6] == f && x[7] == f);
    assert(spec_hex_byte(x, 0) == spec_hex_byte(h, 0));
    assert(spec_hex_byte(x, 2) == spec_hex_byte(h, 2));
    assert(spec_hex_byte(x, 4) == spec_hex_byte(h, 4));
    assert(spec_hex_byte(x, 6) == Some(255u8));
}


/// Surrounding whitespace does not change what a colour text denotes.
pub proof fn colour_ignores_surrounding_whitespace(s: Seq<char>)
    ensures
        spec_parse_color(s) == spec_parse_color(trim(s)),
{
    trim_is_idempotent(s);
}

/// Only eight hex digits or `rgba(...)` give a colour that is not opaque:
/// `#RGB`, `#RRGGBB` and named colours have alpha 255, and `rgb(...)` has no
/// alpha of its own.
pub proof fn only_eight_digits_or_rgba_carry_alpha(s: Seq<char>)
    ensures
        match spec_parse_color(s) {
            Some(SpecColor::Solid(c)) => c.a != 255 ==> (trim(s)[0] == '#' && encode_utf8(
                trim(s),
            ).len() == 9),
            Some(SpecColor::Functional { alpha, .. }) => alpha is Some ==> spec_strip_func(
                trim(s),
                "rgba"@,
            ) is Some,
            None => true,
        },
{
}

// ------------------------------------------------------------------
// The named colours, checked one by one
// ------------------------------------------------------------------

/// The lengths of colour names.
proof fn lemma_name_lengths_0()
    ensures
        "aliceblue"@.len() == 9,
        "antiquewhite"@.len() == 12,
        "aqua"@.len() == 4,
        "aquamarine"@.len() == 10,
        "azure"@.len() == 5,
        "beige"@.len() == 5,
        "bisque"@.len() == 6,
        "black"@.len() == 5,
        "blanchedalmond"@.len() == 14,
        "blue"@.len() == 4,
        "blueviolet"@.len() == 10,
        "brown"@.len() == 5,
        "burlywood"@.len() == 9,
        "cadetblue"@.len() == 9,
        "chartreuse"@.len() == 10,
        "chocolate"@.len() == 9,
        "coral"@.len() == 5,
        "cornflowerblue"@.len() == 14,
        "cornsilk"@.len() == 8,
        "crimson"@.len() == 7,
        "cyan"@.len() == 4,
        "darkblue"@.len() == 8,
        "darkcyan"@.len() == 8,
        "darkgoldenrod"@.len() == 13,
        "darkgray"@.len() == 8,
        "darkgreen"@.len() == 9,
        "darkgrey"@.len() == 8,
        "darkkhaki"@.len() == 9,
        "darkmagenta"@.len() == 11,
        "darkolivegreen"@.len() == 14,
        "darkorange"@.len() == 10,
        "darkorchid"@.len() == 10,
        "darkred"@.len() == 7,
        "darksalmon"@.len() == 10,
        "darkseagreen"@.len() == 12,
        "darkslateblue"@.len() == 13,
        "darkslategray"@.len() == 13,
        "darkslategrey"@.len() == 13,
        "darkturquoise"@.len() == 13,
        "darkviolet"@.len() == 10,
        "deeppink"@.len() == 8,
        "deepskyblue"@.len() == 11,
        "dimgray"@.len() == 7,
        "dimgrey"@.len() == 7,
        "dodgerblue"@.len() == 10,
        "firebrick"@.len() == 9,
        "floralwhite"@.len() == 11,
        "forestgreen"@.len() == 11,
        "fuchsia"@.len() == 7,
        "gainsboro"@.len() == 9,
{
    reveal_strlit("aliceblue");
    reveal_strlit("antiquewhite");
    reveal_strlit("aqua");
    reveal_strlit("aquamarine");
    reveal_strlit("azure");
    reveal_strlit("beige");
    reveal_strlit("bisque");
    reveal_strlit("black");
    reveal_strlit("blanchedalmond");
    reveal_strlit("blue");
    reveal_strlit("blueviolet");
    reveal_strlit("brown");
    reveal_strlit("burlywood");
    reveal_strlit("cadetblue");
    reveal_strlit("chartreuse");
    reveal_strlit("chocolate");
    reveal_strlit("coral");
    reveal_strlit("cornflowerblue");
    reveal_strlit("cornsilk");
    reveal_strlit("crimson");
    reveal_strlit("cyan");
    reveal_strlit("darkblue");
    reveal_strlit("darkcyan");
    reveal_strlit("darkgoldenrod");
    reveal_strlit("darkgray");
    reveal_strlit("darkgreen");
    reveal_strlit("darkgrey");
    reveal_strlit("darkkhaki");
    reveal_strlit("darkmagenta");
    reveal_strlit("darkolivegreen");
    reveal_strlit("darkorange");
    reveal_strlit("darkorchid");
    reveal_strlit("darkred");
    reveal_strlit("darksalmon");
    reveal_strlit("darkseagreen");
    reveal_strlit("darkslateblue");
    reveal_strlit("darkslategray");
    reveal_strlit("darkslategrey");
    reveal_strlit("darkturquoise");
    reveal_strlit("darkviolet");
    reveal_strlit("deeppink");
    reveal_strlit("deepskyblue");
    reveal_strlit("dimgray");
    reveal_strlit("dimgrey");
    reveal_strlit("dodgerblue");
    reveal_strlit("firebrick");
    reveal_strlit("floralwhite");
    reveal_strlit("forestgreen");
    reveal_strlit("fuchsia");
    reveal_strlit("gainsboro");
}

/// The lengths of colour names.
proof fn lemma_name_lengths_1()
    ensures
        "ghostwhite"@.len() == 10,
        "gold"@.len() == 4,
        "goldenrod"@.len() == 9,
        "gray"@.len() == 4,
        "green"@.len() == 5,
        "greenyellow"@.len() == 11,
        "grey"@.len() == 4,
        "honeydew"@.len() == 8,
        "hotpink"@.len() == 7,
        "indianred"@.len() == 9,
        "indigo"@.len() == 6,
        "ivory"@.len() == 5,
        "khaki"@.len() == 5,
        "lavender"@.len() == 8,
        "lavenderblush"@.len() == 13,
        "lawngreen"@.len() == 9,
        "lemonchiffon"@.len() == 12,
        "lightblue"@.len() == 9,
        "lightcoral"@.len() == 10,
        "lightcyan"@.len() == 9,
        "lightgoldenrodyellow"@.len() == 20,
        "lightgray"@.len() == 9,
        "lightgreen"@.len() == 10,
        "lightgrey"@.len() == 9,
        "lightpink"@.len() == 9,
        "lightsalmon"@.len() == 11,
        "lightseagreen"@.len() == 13,
        "lightskyblue"@.len() == 12,
        "lightslategray"@.len() == 14,
        "lightslategrey"@.len() == 14,
        "lightsteelblue"@.len() == 14,
        "lightyellow"@.len() == 11,
        "lime"@.len() == 4,
        "limegreen"@.len() == 9,
        "linen"@.len() == 5,
        "magenta"@.len() == 7,
        "maroon"@.len() == 6,
        "mediumaquamarine"@.len() == 16,
        "mediumblue"@.len() == 10,
        "mediumorchid"@.len() == 12,
        "mediumpurple"@.len() == 12,
        "mediumseagreen"@.len() == 14,
        "mediumslateblue"@.len() == 15,
        "mediumspringgreen"@.len() == 17,
        "mediumturquoise"@.len() == 15,
        "mediumvioletred"@.len() == 15,
        "midnightblue"@.len() == 12,
        "mintcream"@.len() == 9,
        "mistyrose"@.len() == 9,
        "moccasin"@.len() == 8,
{
    reveal_strlit("ghostwhite");
    reveal_strlit("gold");
    reveal_strlit("goldenrod");
    reveal_strlit("gray");
    reveal_strlit("green");
    reveal_strlit("greenyellow");
    reveal_strlit("grey");
    reveal_strlit("honeydew");
    reveal_strlit("hotpink");
    reveal_strlit("indianred");
    reveal_strlit("indigo");
    reveal_strlit("ivory");
    reveal_strlit("khaki");
    reveal_strlit("lavender");
    reveal_strlit("lavenderblush");
    reveal_strlit("lawngreen");
    reveal_strlit("lemonchiffon");
    reveal_strlit("lightblue");
    reveal_strlit("lightcoral");
    reveal_strlit("lightcyan");
    reveal_strlit("lightgoldenrodyellow");
    reveal_strlit("lightgray");
    reveal_strlit("lightgreen");
    reveal_strlit("lightgrey");
    reveal_strlit("lightpink");
    reveal_strlit("lightsalmon");
    reveal_strlit("lightseagreen");
    reveal_strlit("lightskyblue");
    reveal_strlit("lightslategray");
    reveal_strlit("lightslategrey");
    reveal_strlit("lightsteelblue");
    reveal_strlit("lightyellow");
    reveal_strlit("lime");
    reveal_strlit("limegreen");
    reveal_strlit("linen");
    reveal_strlit("magenta");
    reveal_strlit("maroon");
    reveal_strlit("mediumaquamarine");
    reveal_strlit("mediumblue");
    reveal_strlit("mediumorchid");
    reveal_strlit("mediumpurple");
    reveal_strlit("mediumseagreen");
    reveal_strlit("mediumslateblue");
    reveal_strlit("mediumspringgreen");
    reveal_strlit("mediumturquoise");
    reveal_strlit("mediumvioletred");
    reveal_strlit("midnightblue");
    reveal_strlit("mintcream");
    reveal_strlit("mistyrose");
    reveal_strlit("moccasin");
}

/// The lengths of colour names.
proof fn lemma_name_lengths_2()
    ensures
        "navajowhite"@.len() == 11,
        "navy"@.len() == 4,
        "oldlace"@.len() == 7,
        "olive"@.len() == 5,
        "olivedrab"@.len() == 9,
        "orange"@.len() == 6,
        "orangered"@.len() == 9,
        "orchid"@.len() == 6,
        "palegoldenrod"@.len() == 13,
        "palegreen"@.len() == 9,
        "paleturquoise"@.len() == 13,
        "palevioletred"@.len() == 13,
        "papayawhip"@.len() == 10,
        "peachpuff"@.len() == 9,
        "peru"@.len() == 4,
        "pink"@.len() == 4,
        "plum"@.len() == 4,
        "powderblue"@.len() == 10,
        "purple"@.len() == 6,
        "rebeccapurple"@.len() == 13,
        "red"@.len() == 3,
        "rosybrown"@.len() == 9,
        "royalblue"@.len() == 9,
        "saddlebrown"@.len() == 11,
        "salmon"@.len() == 6,
        "sandybrown"@.len() == 10,
        "seagreen"@.len() == 8,
        "seashell"@.len() == 8,
        "sienna"@.len() == 6,
        "silver"@.len() == 6,
        "skyblue"@.len() == 7,
        "slateblue"@.len() == 9,
        "slategray"@.len() == 9,
        "slategrey"@.len() == 9,
        "snow"@.len() == 4,
        "springgreen"@.len() == 11,
        "steelblue"@.len() == 9,
        "tan"@.len() == 3,
        "teal"@.len() == 4,
        "thistle"@.len() == 7,
        "tomato"@.len() == 6,
        "turquoise"@.len() == 9,
        "violet"@.len() == 6,
        "wheat"@.len() == 5,
        "white"@.len() == 5,
        "whitesmoke"@.len() == 10,
        "yellow"@.len() == 6,
        "yellowgreen"@.len() == 11,
{
    reveal_strlit("navajowhite");
    reveal_strlit("navy");
    reveal_strlit("oldlace");
    reveal_strlit("olive");
    reveal_strlit("olivedrab");
    reveal_strlit("orange");
    reveal_strlit("orangered");
    reveal_strlit("orchid");
    reveal_strlit("palegoldenrod");
    reveal_strlit("palegreen");
    reveal_strlit("paleturquoise");
    reveal_strlit("palevioletred");
    reveal_strlit("papayawhip");
    reveal_strlit("peachpuff");
    reveal_strlit("peru");
    reveal_strlit("pink");
    reveal_strlit("plum");
    reveal_strlit("powderblue");
    reveal_strlit("purple");
    reveal_strlit("rebeccapurple");
    reveal_strlit("red");
    reveal_strlit("rosybrown");
    reveal_strlit("royalblue");
    reveal_strlit("saddlebrown");
    reveal_strlit("salmon");
    reveal_strlit("sandybrown");
    reveal_strlit("seagreen");
    reveal_strlit("seashell");
    reveal_strlit("sienna");
    reveal_strlit("silver");
    reveal_strlit("skyblue");
    reveal_strlit("slateblue");
    reveal_strlit("slategray");
    reveal_strlit("slategrey");
    reveal_strlit("snow");
    reveal_strlit("springgreen");
    reveal_strlit("steelblue");
    reveal_strlit("tan");
    reveal_strlit("teal");
    reveal_strlit("thistle");
    reveal_strlit("tomato");
    reveal_strlit("turquoise");
    reveal_strlit("violet");
    reveal_strlit("wheat");
    reveal_strlit("white");
    reveal_strlit("whitesmoke");
    reveal_strlit("yellow");
    reveal_strlit("yellowgreen");
}

/// Letters that tell colour names of one length apart.
proof fn lemma_name_letters_0()
    ensures
        "aliceblue"@[0] == 'a',
        "antiquewhite"@[0] == 'a',
        "aqua"@[0] == 'a',
        "aquamarine"@[0] == 'a',
        "azure"@[0] == 'a',
        "beige"@[0] == 'b',
        "beige"@[1] == 'e',
        "bisque"@[0] == 'b',
        "black"@[0] == 'b',
        "black"@[1] == 'l',
        "blanchedalmond"@[0] == 'b',
        "blue"@[0] == 'b',
        "blueviolet"@[0] == 'b',
        "brown"@[0] == 'b',
        "brown"@[1] == 'r',
        "burlywood"@[0] == 'b',
        "cadetblue"@[0] == 'c',
        "cadetblue"@[1] == 'a',
        "chartreuse"@[0] == 'c',
        "chocolate"@[0] == 'c',
        "chocolate"@[1] == 'h',
        "coral"@[0] == 'c',
        "cornflowerblue"@[0] == 'c',
        "cornsilk"@[0] == 'c',
        "crimson"@[0] == 'c',
        "cyan"@[0] == 'c',
        "darkblue"@[0] == 'd',
        "darkblue"@[1] == 'a',
        "darkblue"@[4] == 'b',
        "darkcyan"@[0] == 'd',
        "darkcyan"@[1] == 'a',
        "darkcyan"@[4] == 'c',
        "darkgoldenrod"@[0] == 'd',
        "darkgoldenrod"@[4] == 'g',
        "darkgray"@[0] == 'd',
        "darkgray"@[1] == 'a',
        "darkgray"@[4] == 'g',
        "darkgray"@[6] == 'a',
        "darkgreen"@[0] == 'd',
        "darkgreen"@[4] == 'g',
        "darkgrey"@[0] == 'd',
        "darkgrey"@[1] == 'a',
        "darkgrey"@[4] == 'g',
        "darkgrey"@[6] == 'e',
        "darkkhaki"@[0] == 'd',
        "darkkhaki"@[4] == 'k',
        "darkmagenta"@[0] == 'd',
        "darkmagenta"@[1] == 'a',
        "darkolivegreen"@[0] == 'd',
        "darkorange"@[0] == 'd',
        "darkorange"@[1] == 'a',
        "darkorange"@[4] == 'o',
        "darkorange"@[6] == 'a',
        "darkorchid"@[0] == 'd',
        "darkorchid"@[1] == 'a',
        "darkorchid"@[4] == 'o',
        "darkorchid"@[6] == 'c',
        "darkred"@[0] == 'd',
        "darkred"@[1] == 'a',
        "darksalmon"@[0] == 'd',
        "darksalmon"@[1] == 'a',
        "darksalmon"@[4] == 's',
        "darkseagreen"@[0] == 'd',
        "darkslateblue"@[0] == 'd',
        "darkslateblue"@[4] == 's',
        "darkslateblue"@[9] == 'b',
        "darkslategray"@[0] == 'd',
        "darkslategray"@[4] == 's',
        "darkslategray"@[9] == 'g',
        "darkslategray"@[11] == 'a',
{
    reveal_strlit("aliceblue");
    reveal_strlit("antiquewhite");
    reveal_strlit("aqua");
    reveal_strlit("aquamarine");
    reveal_strlit("azure");
    reveal_strlit("beige");
    reveal_strlit("bisque");
    reveal_strlit("black");
    reveal_strlit("blanchedalmond");
    reveal_strlit("blue");
    reveal_strlit("blueviolet");
    reveal_strlit("brown");
    reveal_strlit("burlywood");
    reveal_strlit("cadetblue");
    reveal_strlit("chartreuse");
    reveal_strlit("chocolate");
    reveal_strlit("coral");
    reveal_strlit("cornflowerblue");
    reveal_strlit("cornsilk");
    reveal_strlit("crimson");
    reveal_strlit("cyan");
    reveal_strlit("darkblue");
    reveal_strlit("darkcyan");
    reveal_strlit("darkgoldenrod");
    reveal_strlit("darkgray");
    reveal_strlit("darkgreen");
    reveal_strlit("darkgrey");
    reveal_strlit("darkkhaki");
    reveal_strlit("darkmagenta");
    reveal_strlit("darkolivegreen");
    reveal_strlit("darkorange");
    reveal_strlit("darkorchid");
    reveal_strlit("darkred");
    reveal_strlit("darksalmon");
    reveal_strlit("darkseagreen");
    reveal_strlit("darkslateblue");
    reveal_strlit("darkslategray");
}

/// Letters that tell colour names of one length apart.
proof fn lemma_name_letters_1()
    ensures
        "darkslategrey"@[0] == 'd',
        "darkslategrey"@[4] == 's',
        "darkslategrey"@[9] == 'g',
        "darkslategrey"@[11] == 'e',
        "darkturquoise"@[0] == 'd',
        "darkturquoise"@[4] == 't',
        "darkviolet"@[0] == 'd',
        "darkviolet"@[1] == 'a',
        "darkviolet"@[4] == 'v',
        "deeppink"@[0] == 'd',
        "deeppink"@[1] == 'e',
        "deepskyblue"@[0] == 'd',
        "deepskyblue"@[1] == 'e',
        "dimgray"@[0] == 'd',
        "dimgray"@[1] == 'i',
        "dimgray"@[5] == 'a',
        "dimgrey"@[0] == 'd',
        "dimgrey"@[1] == 'i',
        "dimgrey"@[5] == 'e',
        "dodgerblue"@[0] == 'd',
        "dodgerblue"@[1] == 'o',
        "firebrick"@[0] == 'f',
        "floralwhite"@[0] == 'f',
        "floralwhite"@[1] == 'l',
        "forestgreen"@[0] == 'f',
        "forestgreen"@[1] == 'o',
        "fuchsia"@[0] == 'f',
        "gainsboro"@[0] == 'g',
        "gainsboro"@[1] == 'a',
        "ghostwhite"@[0] == 'g',
        "gold"@[0] == 'g',
        "gold"@[1] == 'o',
        "goldenrod"@[0] == 'g',
        "goldenrod"@[1] == 'o',
        "gray"@[0] == 'g',
        "gray"@[1] == 'r',
        "gray"@[2] == 'a',
        "green"@[0] == 'g',
        "greenyellow"@[0] == 'g',
        "grey"@[0] == 'g',
        "grey"@[1] == 'r',
        "grey"@[2] == 'e',
        "honeydew"@[0] == 'h',
        "hotpink"@[0] == 'h',
        "indianred"@[0] == 'i',
        "indigo"@[0] == 'i',
        "ivory"@[0] == 'i',
        "khaki"@[0] == 'k',
        "lavender"@[0] == 'l',
        "lavenderblush"@[0] == 'l',
        "lavenderblush"@[1] == 'a',
        "lawngreen"@[0] == 'l',
        "lawngreen"@[1] == 'a',
        "lemonchiffon"@[0] == 'l',
        "lemonchiffon"@[1] == 'e',
        "lightblue"@[0] == 'l',
        "lightblue"@[1] == 'i',
        "lightblue"@[2] == 'g',
        "lightblue"@[5] == 'b',
        "lightcoral"@[0] == 'l',
        "lightcoral"@[5] == 'c',
        "lightcyan"@[0] == 'l',
        "lightcyan"@[1] == 'i',
        "lightcyan"@[2] == 'g',
        "lightcyan"@[5] == 'c',
        "lightgray"@[0] == 'l',
        "lightgray"@[1] == 'i',
        "lightgray"@[2] == 'g',
        "lightgray"@[5] == 'g',
        "lightgray"@[7] == 'a',
{
    reveal_strlit("darkslategrey");
    reveal_strlit("darkturquoise");
    reveal_strlit("darkviolet");
    reveal_strlit("deeppink");
    reveal_strlit("deepskyblue");
    reveal_strlit("dimgray");
    reveal_strlit("dimgrey");
    reveal_strlit("dodgerblue");
    reveal_strlit("firebrick");
    reveal_strlit("floralwhite");
    reveal_strlit("forestgreen");
    reveal_strlit("fuchsia");
    reveal_strlit("gainsboro");
    reveal_strlit("ghostwhite");
    reveal_strlit("gold");
    reveal_strlit("goldenrod");
    reveal_strlit("gray");
    reveal_strlit("green");
    reveal_strlit("greenyellow");
    reveal_strlit("grey");
    reveal_strlit("honeydew");
    reveal_strlit("hotpink");
    reveal_strlit("indianred");
    reveal_strlit("indigo");
    reveal_strlit("ivory");
    reveal_strlit("khaki");
    reveal_strlit("lavender");
    reveal_strlit("lavenderblush");
    reveal_strlit("lawngreen");
    reveal_strlit("lemonchiffon");
    reveal_strlit("lightblue");
    reveal_strlit("lightcoral");
    reveal_strlit("lightcyan");
    reveal_strlit("lightgray");
}

/// Letters that tell colour names of one length apart.
proof fn lemma_name_letters_2()
    ensures
        "lightgreen"@[0] == 'l',
        "lightgreen"@[5] == 'g',
        "lightgrey"@[0] == 'l',
        "lightgrey"@[1] == 'i',
        "lightgrey"@[2] == 'g',
        "lightgrey"@[5] == 'g',
        "lightgrey"@[7] == 'e',
        "lightpink"@[0] == 'l',
        "lightpink"@[1] == 'i',
        "lightpink"@[2] == 'g',
        "lightpink"@[5] == 'p',
        "lightsalmon"@[0] == 'l',
        "lightsalmon"@[5] == 's',
        "lightseagreen"@[0] == 'l',
        "lightseagreen"@[1] == 'i',
        "lightskyblue"@[0] == 'l',
        "lightskyblue"@[1] == 'i',
        "lightslategray"@[0] == 'l',
        "lightslategray"@[6] == 'l',
        "lightslategray"@[12] == 'a',
        "lightslategrey"@[0] == 'l',
        "lightslategrey"@[6] == 'l',
        "lightslategrey"@[12] == 'e',
        "lightsteelblue"@[0] == 'l',
        "lightsteelblue"@[6] == 't',
        "lightyellow"@[0] == 'l',
        "lightyellow"@[5] == 'y',
        "lime"@[0] == 'l',
        "limegreen"@[0] == 'l',
        "limegreen"@[1] == 'i',
        "limegreen"@[2] == 'm',
        "linen"@[0] == 'l',
        "magenta"@[0] == 'm',
        "maroon"@[0] == 'm',
        "mediumblue"@[0] == 'm',
        "mediumorchid"@[0] == 'm',
        "mediumorchid"@[1] == 'e',
        "mediumorchid"@[6] == 'o',
        "mediumpurple"@[0] == 'm',
        "mediumpurple"@[1] == 'e',
        "mediumpurple"@[6] == 'p',
        "mediumseagreen"@[0] == 'm',
        "mediumslateblue"@[6] == 's',
        "mediumturquoise"@[6] == 't',
        "mediumvioletred"@[6] == 'v',
        "midnightblue"@[0] == 'm',
        "midnightblue"@[1] == 'i',
        "mintcream"@[0] == 'm',
        "mintcream"@[2] == 'n',
        "mistyrose"@[0] == 'm',
        "mistyrose"@[2] == 's',
        "moccasin"@[0] == 'm',
        "navajowhite"@[0] == 'n',
        "navy"@[0] == 'n',
        "oldlace"@[0] == 'o',
        "olive"@[0] == 'o',
        "olivedrab"@[0] == 'o',
        "olivedrab"@[1] == 'l',
        "orange"@[0] == 'o',
        "orange"@[2] == 'a',
        "orangered"@[0] == 'o',
        "orangered"@[1] == 'r',
        "orchid"@[0] == 'o',
        "orchid"@[2] == 'c',
        "palegoldenrod"@[0] == 'p',
        "palegoldenrod"@[4] == 'g',
        "palegreen"@[0] == 'p',
        "palegreen"@[1] == 'a',
        "paleturquoise"@[0] == 'p',
        "paleturquoise"@[4] == 't',
{
    reveal_strlit("lightgreen");
    reveal_strlit("lightgrey");
    reveal_strlit("lightpink");
    reveal_strlit("lightsalmon");
    reveal_strlit("lightseagreen");
    reveal_strlit("lightskyblue");
    reveal_strlit("lightslategray");
    reveal_strlit("lightslategrey");
    reveal_strlit("lightsteelblue");
    reveal_strlit("lightyellow");
    reveal_strlit("lime");
    reveal_strlit("limegreen");
    reveal_strlit("linen");
    reveal_strlit("magenta");
    reveal_strlit("maroon");
    reveal_strlit("mediumblue");
    reveal_strlit("mediumorchid");
    reveal_strlit("mediumpurple");
    reveal_strlit("mediumseagreen");
    reveal_strlit("mediumslateblue");
    reveal_strlit("mediumturquoise");
    reveal_strlit("mediumvioletred");
    reveal_strlit("midnightblue");
    reveal_strlit("mintcream");
    reveal_strlit("mistyrose");
    reveal_strlit("moccasin");
    reveal_strlit("navajowhite");
    reveal_strlit("navy");
    reveal_strlit("oldlace");
    reveal_strlit("olive");
    reveal_strlit("olivedrab");
    reveal_strlit("orange");
    reveal_strlit("orangered");
    reveal_strlit("orchid");
    reveal_strlit("palegoldenrod");
    reveal_strlit("palegreen");
    reveal_strlit("paleturquoise");
}

/// Letters that tell colour names of one length apart.
proof fn lemma_name_letters_3()
    ensures
        "palevioletred"@[0] == 'p',
        "palevioletred"@[4] == 'v',
        "papayawhip"@[0] == 'p',
        "papayawhip"@[1] == 'a',
        "peachpuff"@[0] == 'p',
        "peachpuff"@[1] == 'e',
        "peru"@[0] == 'p',
        "peru"@[1] == 'e',
        "pink"@[0] == 'p',
        "pink"@[1] == 'i',
        "plum"@[0] == 'p',
        "plum"@[1] == 'l',
        "powderblue"@[0] == 'p',
        "powderblue"@[1] == 'o',
        "purple"@[0] == 'p',
        "rebeccapurple"@[0] == 'r',
        "red"@[0] == 'r',
        "rosybrown"@[0] == 'r',
        "rosybrown"@[2] == 's',
        "royalblue"@[0] == 'r',
        "royalblue"@[2] == 'y',
        "saddlebrown"@[0] == 's',
        "saddlebrown"@[1] == 'a',
        "salmon"@[0] == 's',
        "salmon"@[1] == 'a',
        "sandybrown"@[0] == 's',
        "seagreen"@[0] == 's',
        "seagreen"@[3] == 'g',
        "seashell"@[0] == 's',
        "seashell"@[3] == 's',
        "sienna"@[0] == 's',
        "sienna"@[1] == 'i',
        "sienna"@[2] == 'e',
        "silver"@[0] == 's',
        "silver"@[1] == 'i',
        "silver"@[2] == 'l',
        "skyblue"@[0] == 's',
        "slateblue"@[0] == 's',
        "slateblue"@[1] == 'l',
        "slateblue"@[5] == 'b',
        "slategray"@[0] == 's',
        "slategray"@[1] == 'l',
        "slategray"@[5] == 'g',
        "slategray"@[7] == 'a',
        "slategrey"@[0] == 's',
        "slategrey"@[1] == 'l',
        "slategrey"@[5] == 'g',
        "slategrey"@[7] == 'e',
        "snow"@[0] == 's',
        "springgreen"@[0] == 's',
        "springgreen"@[1] == 'p',
        "steelblue"@[0] == 's',
        "steelblue"@[1] == 't',
        "tan"@[0] == 't',
        "teal"@[0] == 't',
        "thistle"@[0] == 't',
        "tomato"@[0] == 't',
        "turquoise"@[0] == 't',
        "violet"@[0] == 'v',
        "wheat"@[0] == 'w',
        "wheat"@[2] == 'e',
        "white"@[0] == 'w',
        "white"@[2] == 'i',
        "whitesmoke"@[0] == 'w',
        "yellow"@[0] == 'y',
        "yellowgreen"@[0] == 'y',
{
    reveal_strlit("palevioletred");
    reveal_strlit("papayawhip");
    reveal_strlit("peachpuff");
    reveal_strlit("peru");
    reveal_strlit("pink");
    reveal_strlit("plum");
    reveal_strlit("powderblue");
    reveal_strlit("purple");
    reveal_strlit("rebeccapurple");
    reveal_strlit("red");
    reveal_strlit("rosybrown");
    reveal_strlit("royalblue");
    reveal_strlit("saddlebrown");
    reveal_strlit("salmon");
    reveal_strlit("sandybrown");
    reveal_strlit("seagreen");
    reveal_strlit("seashell");
    reveal_strlit("sienna");
    reveal_strlit("silver");
    reveal_strlit("skyblue");
    reveal_strlit("slateblue");
    reveal_strlit("slategray");
    reveal_strlit("slategrey");
    reveal_strlit("snow");
    reveal_strlit("springgreen");
    reveal_strlit("steelblue");
    reveal_strlit("tan");
    reveal_strlit("teal");
    reveal_strlit("thistle");
    reveal_strlit("tomato");
    reveal_strlit("turquoise");
    reveal_strlit("violet");
    reveal_strlit("wheat");
    reveal_strlit("white");
    reveal_strlit("whitesmoke");
    reveal_strlit("yellow");
    reveal_strlit("yellowgreen");
}

/// Each CSS named colour beginning with `a` to `b` denotes its CSS value.
pub proof fn css_named_colours_a_b()
    ensures
        named_color("aliceblue"@) == Some((240u8, 248u8, 255u8)),
        named_color("antiquewhite"@) == Some((250u8, 235u8, 215u8)),
        named_color("aqua"@) == Some((0u8, 255u8, 255u8)),
        named_color("aquamarine"@) == Some((127u8, 255u8, 212u8)),
        named_color("azure"@) == Some((240u8, 255u8, 255u8)),
        named_color("beige"@) == Some((245u8, 245u8, 220u8)),
        named_color("bisque"@) == Some((255u8, 228u8, 196u8)),
        named_color("black"@) == Some((0u8, 0u8, 0u8)),
        named_color("blanchedalmond"@) == Some((255u8, 235u8, 205u8)),
        named_color("blue"@) == Some((0u8, 0u8, 255u8)),
        named_color("blueviolet"@) == Some((138u8, 43u8, 226u8)),
        named_color("brown"@) == Some((165u8, 42u8, 42u8)),
        named_color("burlywood"@) == Some((222u8, 184u8, 135u8)),
{
    lemma_name_lengths_0();
    lemma_name_lengths_1();
    lemma_name_lengths_2();
    lemma_name_letters_0();
    lemma_name_letters_1();
    lemma_name_letters_2();
    lemma_name_letters_3();
}

/// Each CSS named colour beginning with `c` denotes its CSS value.
pub proof fn css_named_colours_c_c()
    ensures
        named_color("cadetblue"@) == Some((95u8, 158u8, 160u8)),
        named_color("chartreuse"@) == Some((127u8, 255u8, 0u8)),
        named_color("chocolate"@) == Some((210u8, 105u8, 30u8)),
        named_color("coral"@) == Some((255u8, 127u8, 80u8)),
        named_color("cornflowerblue"@) == Some((100u8, 149u8, 237u8)),
        named_color("cornsilk"@) == Some((255u8, 248u8, 220u8)),
        named_color("crimson"@) == Some((220u8, 20u8, 60u8)),
        named_color("cyan"@) == Some((0u8, 255u8, 255u8)),
{
    lemma_name_lengths_0();
    lemma_name_lengths_1();
    lemma_name_lengths_2();
    lemma_name_letters_0();
    lemma_name_letters_1();
    lemma_name_letters_2();
    lemma_name_letters_3();
}

/// Each CSS named colour beginning with `d` denotes its CSS value.
pub proof fn css_named_colours_d_d()
    ensures
        named_color("darkblue"@) == Some((0u8, 0u8, 139u8)),
        named_color("darkcyan"@) == Some((0u8, 139u8, 139u8)),
        named_color("darkgoldenrod"@) == Some((184u8, 134u8, 11u8)),
        named_color("darkgray"@) == Some((169u8, 169u8, 169u8)),
        named_color("darkgreen"@) == Some((0u8, 100u8, 0u8)),
        named_color("darkgrey"@) == Some((169u8, 169u8, 169u8)),
        named_color("darkkhaki"@) == Some((189u8, 183u8, 107u8)),
        named_color("darkmagenta"@) == Some((139u8, 0u8, 139u8)),
        named_color("darkolivegreen"@) == Some((85u8, 107u8, 47u8)),
        named_color("darkorange"@) == Some((255u8, 140u8, 0u8)),
        named_color("darkorchid"@) == Some((153u8, 50u8, 204u8)),
        named_color("darkred"@) == Some((139u8, 0u8, 0u8)),
        named_color("darksalmon"@) == Some((233u8, 150u8, 122u8)),
        named_color("darkseagreen"@) == Some((143u8, 188u8, 143u8)),
        named_color("darkslateblue"@) == Some((72u8, 61u8, 139u8)),
        named_color("darkslategray"@) == Some((47u8, 79u8, 79u8)),
        named_color("darkslategrey"@) == Some((47u8, 79u8, 79u8)),
        named_color("darkturquoise"@) == Some((0u8, 206u8, 209u8)),
        named_color("darkviolet"@) == Some((148u8, 0u8, 211u8)),
        named_color("deeppink"@) == Some((255u8, 20u8, 147u8)),
        named_color("deepskyblue"@) == Some((0u8, 191u8, 255u8)),
        named_color("dimgray"@) == Some((105u8, 105u8, 105u8)),
        named_color("dimgrey"@) == Some((105u8, 105u8, 105u8)),
        named_color("dodgerblue"@) == Some((30u8, 144u8, 255u8)),
{
    lemma_name_lengths_0();
    lemma_name_lengths_1();
    lemma_name_lengths_2();
    lemma_name_letters_0();
    lemma_name_letters_1();
    lemma_name_letters_2();
    lemma_name_letters_3();
}

/// Each CSS named colour beginning with `e` to `g` denotes its CSS value.
pub proof fn css_named_colours_e_g()
    ensures
        named_color("firebrick"@) == Some((178u8, 34u8, 34u8)),
        named_color("floralwhite"@) == Some((255u8, 250u8, 240u8)),
        named_color("forestgreen"@) == Some((34u8, 139u8, 34u8)),
        named_color("fuchsia"@) == Some((255u8, 0u8, 255u8)),
        named_color("gainsboro"@) == Some((220u8, 220u8, 220u8)),
        named_color("ghostwhite"@) == Some((248u8, 248u8, 255u8)),
        named_color("gold"@) == Some((255u8, 215u8, 0u8)),
        named_color("goldenrod"@) == Some((218u8, 165u8, 32u8)),
        named_color("gray"@) == Some((128u8, 128u8, 128u8)),
        named_color("green"@) == Some((0u8, 128u8, 0u8)),
        named_color("greenyellow"@) == Some((173u8, 255u8, 47u8)),
        named_color("grey"@) == Some((128u8, 128u8, 128u8)),
{
    lemma_name_lengths_0();
    lemma_name_lengths_1();
    lemma_name_lengths_2();
    lemma_name_letters_0();
    lemma_name_letters_1();
    lemma_name_letters_2();
    lemma_name_letters_3();
}

/// Each CSS named colour beginning with `h` to `l` denotes its CSS value.
pub proof fn css_named_colours_h_l()
    ensures
        named_color("honeydew"@) == Some((240u8, 255u8, 240u8)),
        named_color("hotpink"@) == Some((255u8, 105u8, 180u8)),
        named_color("indianred"@) == Some((205u8, 92u8, 92u8)),
        named_color("indigo"@) == Some((75u8, 0u8, 130u8)),
        named_color("ivory"@) == Some((255u8, 255u8, 240u8)),
        named_color("khaki"@) == Some((240u8, 230u8, 140u8)),
        named_color("lavender"@) == Some((230u8, 230u8, 250u8)),
        named_color("lavenderblush"@) == Some((255u8, 240u8, 245u8)),
        named_color("lawngreen"@) == Some((124u8, 252u8, 0u8)),
        named_color("lemonchiffon"@) == Some((255u8, 250u8, 205u8)),
        named_color("lightblue"@) == Some((173u8, 216u8, 230u8)),
        named_color("lightcoral"@) == Some((240u8, 128u8, 128u8)),
        named_color("lightcyan"@) == Some((224u8, 255u8, 255u8)),
        named_color("lightgoldenrodyellow"@) == Some((250u8, 250u8, 210u8)),
        named_color("lightgray"@) == Some((211u8, 211u8, 211u8)),
        named_color("lightgreen"@) == Some((144u8, 238u8, 144u8)),
        named_color("lightgrey"@) == Some((211u8, 211u8, 211u8)),
        named_color("lightpink"@) == Some((255u8, 182u8, 193u8)),
        named_color("lightsalmon"@) == Some((255u8, 160u8, 122u8)),
        named_color("lightseagreen"@) == Some((32u8, 178u8, 170u8)),
        named_color("lightskyblue"@) == Some((135u8, 206u8, 250u8)),
        named_color("lightslategray"@) == Some((119u8, 136u8, 153u8)),
        named_color("lightslategrey"@) == Some((119u8, 136u8, 153u8)),
        named_color("lightsteelblue"@) == Some((176u8, 196u8, 222u8)),
        named_color("lightyellow"@) == Some((255u8, 255u8, 224u8)),
        named_color("lime"@) == Some((0u8, 255u8, 0u8)),
        named_color("limegreen"@) == Some((50u8, 205u8, 50u8)),
        named_color("linen"@) == Some((250u8, 240u8, 230u8)),
{
    lemma_name_lengths_0();
    lemma_name_lengths_1();
    lemma_name_lengths_2();
    lemma_name_letters_0();
    lemma_name_letters_1();
    lemma_name_letters_2();
    lemma_name_letters_3();
}

/// Each CSS named colour beginning with `m` to `o` denotes its CSS value.
pub proof fn css_named_colours_m_o()
    ensures
        named_color("magenta"@) == Some((255u8, 0u8, 255u8)),
        named_color("maroon"@) == Some((128u8, 0u8, 0u8)),
        named_color("mediumaquamarine"@) == Some((102u8, 205u8, 170u8)),
        named_color("mediumblue"@) == Some((0u8, 0u8, 205u8)),
        named_color("mediumorchid"@) == Some((186u8, 85u8, 211u8)),
        named_color("mediumpurple"@) == Some((147u8, 112u8, 219u8)),
        named_color("mediumseagreen"@) == Some((60u8, 179u8, 113u8)),
        named_color("mediumslateblue"@) == Some((123u8, 104u8, 238u8)),
        named_color("mediumspringgreen"@) == Some((0u8, 250u8, 154u8)),
        named_color("mediumturquoise"@) == Some((72u8, 209u8, 204u8)),
        named_color("mediumvioletred"@) == Some((199u8, 21u8, 133u8)),
        named_color("midnightblue"@) == Some((25u8, 25u8, 112u8)),
        named_color("mintcream"@) == Some((245u8, 255u8, 250u8)),
        named_color("mistyrose"@) == Some((255u8, 228u8, 225u8)),
        named_color("moccasin"@) == Some((255u8, 228u8, 181u8)),
        named_color("navajowhite"@) == Some((255u8, 222u8, 173u8)),
        named_color("navy"@) == Some((0u8, 0u8, 128u8)),
        named_color("oldlace"@) == Some((253u8, 245u8, 230u8)),
        named_color("olive"@) == Some((128u8, 128u8, 0u8)),
        named_color("olivedrab"@) == Some((107u8, 142u8, 35u8)),
        named_color("orange"@) == Some((255u8, 165u8, 0u8)),
        named_color("orangered"@) == Some((255u8, 69u8, 0u8)),
        named_color("orchid"@) == Some((218u8, 112u8, 214u8)),
{
    lemma_name_lengths_0();
    lemma_name_lengths_1();
    lemma_name_lengths_2();
    lemma_name_letters_0();
    lemma_name_letters_1();
    lemma_name_letters_2();
    lemma_name_letters_3();
}

/// Each CSS named colour beginning with `p` to `r` denotes its CSS value.
pub proof fn css_named_colours_p_r()
    ensures
        named_color("palegoldenrod"@) == Some((238u8, 232u8, 170u8)),
        named_color("palegreen"@) == Some((152u8, 251u8, 152u8)),
        named_color("paleturquoise"@) == Some((175u8, 238u8, 238u8)),
        named_color("palevioletred"@) == Some((219u8, 112u8, 147u8)),
        named_color("papayawhip"@) == Some((255u8, 239u8, 213u8)),
        named_color("peachpuff"@) == Some((255u8, 218u8, 185u8)),
        named_color("peru"@) == Some((205u8, 133u8, 63u8)),
        named_color("pink"@) == Some((255u8, 192u8, 203u8)),
        named_color("plum"@) == Some((221u8, 160u8, 221u8)),
        named_color("powderblue"@) == Some((176u8, 224u8, 230u8)),
        named_color("purple"@) == Some((128u8, 0u8, 128u8)),
        named_color("rebeccapurple"@) == Some((102u8, 51u8, 153u8)),
        named_color("red"@) == Some((255u8, 0u8, 0u8)),
        named_color("rosybrown"@) == Some((188u8, 143u8, 143u8)),
        named_color("royalblue"@) == Some((65u8, 105u8, 225u8)),
{
    lemma_name_lengths_0();
    lemma_name_lengths_1();
    lemma_name_lengths_2();
    lemma_name_letters_0();
    lemma_name_letters_1();
    lemma_name_letters_2();
    lemma_name_letters_3();
}

/// Each CSS named colour beginning with `s` denotes its CSS value.
pub proof fn css_named_colours_s_s()
    ensures
        named_color("saddlebrown"@) == Some((139u8, 69u8, 19u8)),
        named_color("salmon"@) == Some((250u8, 128u8, 114u8)),
        named_color("sandybrown"@) == Some((244u8, 164u8, 96u8)),
        named_color("seagreen"@) == Some((46u8, 139u8, 87u8)),
        named_color("seashell"@) == Some((255u8, 245u8, 238u8)),
        named_color("sienna"@) == Some((160u8, 82u8, 45u8)),
        named_color("silver"@) == Some((192u8, 192u8, 192u8)),
        named_color("skyblue"@) == Some((135u8, 206u8, 235u8)),
        named_color("slateblue"@) == Some((106u8, 90u8, 205u8)),
        named_color("slategray"@) == Some((112u8, 128u8, 144u8)),
        named_color("slategrey"@) == Some((112u8, 128u8, 144u8)),
        named_color("snow"@) == Some((255u8, 250u8, 250u8)),
        named_color("springgreen"@) == Some((0u8, 255u8, 127u8)),
        named_color("steelblue"@) == Some((70u8, 130u8, 180u8)),
{
    lemma_name_lengths_0();
    lemma_name_lengths_1();
    lemma_name_lengths_2();
    lemma_name_letters_0();
    lemma_name_letters_1();
    lemma_name_letters_2();
    lemma_name_letters_3();
}

/// Each CSS named colour beginning with `t` to `z` denotes its CSS value.
pub proof fn css_named_colours_t_z()
    ensures
        named_color("tan"@) == Some((210u8, 180u8, 140u8)),
        named_color("teal"@) == Some((0u8, 128u8, 128u8)),
        named_color("thistle"@) == Some((216u8, 191u8, 216u8)),
        named_color("tomato"@) == Some((255u8, 99u8, 71u8)),
        named_color("turquoise"@) == Some((64u8, 224u8, 208u8)),
        named_color("violet"@) == Some((238u8, 130u8, 238u8)),
        named_color("wheat"@) == Some((245u8, 222u8, 179u8)),
        named_color("white"@) == Some((255u8, 255u8, 255u8)),
        named_color("whitesmoke"@) == Some((245u8, 245u8, 245u8)),
        named_color("yellow"@) == Some((255u8, 255u8, 0u8)),
        named_color("yellowgreen"@) == Some((154u8, 205u8, 50u8)),
{
    lemma_name_lengths_0();
    lemma_name_lengths_1();
    lemma_name_lengths_2();
    lemma_name_letters_0();
    lemma_name_letters_1();
    lemma_name_letters_2();
    lemma_name_letters_3();
}


/// The hex digits are `0`-`9` with their values and `a`-`f`, `A`-`F` with
/// the values 10 to 15; no other byte is one.
pub proof fn hex_digit_values(c: u8)
    ensures
        hex_digit_value(c) is Some <==> (0x30u8 <= c <= 0x39u8 || 0x61u8 <= c <= 0x66u8 || 0x41u8
            <= c <= 0x46u8),
        0x30u8 <= c <= 0x39u8 ==> hex_digit_value(c) == Some((c - 48) as u8),
        0x61u8 <= c <= 0x66u8 ==> hex_digit_value(c) == Some((c - 87) as u8),
        0x41u8 <= c <= 0x46u8 ==> hex_digit_value(c) == Some((c - 55) as u8),
{
}

} // verus!
