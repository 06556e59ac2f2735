use vstd::prelude::*;
use vstd::string::*;
use crate::text::concat_str;

verus! {

/// How the interior of a shape is decided when filling.
#[derive(Debug, Clone, Copy, PartialEq, Eq, Structural)]
pub enum FillRule {
    NonZero,
    EvenOdd,
}

/// Shape drawn at the open ends of a stroked line.
#[derive(Debug, Clone, Copy, PartialEq, Eq, Structural)]
pub enum LineCap {
    Butt,
    Round,
    Square,
}

/// Shape drawn where two stroked segments meet.
#[derive(Debug, Clone, Copy, PartialEq, Eq, Structural)]
pub enum LineJoin {
    Miter,
    Round,
    Bevel,
}

/// An 8-bit RGBA colour (straight alpha).
#[derive(Debug, Clone, Copy, PartialEq, Eq, Structural)]
pub struct Color {
    pub r: u8,
    pub g: u8,
    pub b: u8,
    pub a: u8,
}

/// What a gradient does outside its own range.
#[derive(Debug, Clone, Copy, PartialEq, Eq, Structural)]
pub enum SpreadMethod {
    Pad,
    Reflect,
    Repeat,
}

/// Coordinate system in which a gradient's geometry is given.
#[derive(Debug, Clone, Copy, PartialEq, Eq, Structural)]
pub enum GradientUnits {
    UserSpaceOnUse,
    ObjectBoundingBox,
}

/// The three SMIL animation elements that are understood.
#[derive(Debug, Clone, Copy, PartialEq, Eq, Structural)]
pub enum SmilKind {
    Animate,
    /// The `<set>` element.
    SetElement,
    AnimateTransform,
}

/// SMIL `calcMode`.
#[derive(Debug, Clone, Copy, PartialEq, Eq, Structural)]
pub enum CalcMode {
    Linear,
    Discrete,
    Spline,
    Paced,
}

/// SMIL `additive`.
#[derive(Debug, Clone, Copy, PartialEq, Eq, Structural)]
pub enum Additive {
    Replace,
    Sum,
}

/// SMIL `fill` (what happens once the animation is over).
#[derive(Debug, Clone, Copy, PartialEq, Eq, Structural)]
pub enum FillMode {
    Freeze,
    Remove,
}

/// The `type` of an `animateTransform`.
#[derive(Debug, Clone, Copy, PartialEq, Eq, Structural)]
pub enum TransformType {
    Translate,
    Rotate,
    Scale,
    SkewX,
    SkewY,
}

/// Errors reported while reading an SVG document.
#[derive(Debug, Clone, PartialEq)]
pub enum SvgError {
    /// The XML is malformed.
    XmlParse(String),
    /// The document is XML but not an acceptable SVG (missing attributes and the like).
    InvalidSvg(String),
    /// A path `d` attribute could not be read.
    InvalidPathData(String),
}


impl SvgError {
    /// The text of the error: a prefix naming its kind, then its message.
    pub fn message(&self) -> (r: String)
        ensures
            r@ == match self {
                SvgError::XmlParse(m) => "XML parse error: "@ + m@,
                SvgError::InvalidSvg(m) => "Invalid SVG: "@ + m@,
                SvgError::InvalidPathData(m) => "Invalid path data: "@ + m@,
            },
    {
        match self {
            SvgError::XmlParse(m) => concat_str("XML parse error: ", m.as_str()),
            SvgError::InvalidSvg(m) => concat_str("Invalid SVG: ", m.as_str()),
            SvgError::InvalidPathData(m) => concat_str("Invalid path data: ", m.as_str()),
        }
    }
}

} // verus!
