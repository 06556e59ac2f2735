//! Reading SVG documents: the XML layer, the syntax of attributes (colours,
//! keywords, path data, transform lists, number lists), the identifiers and
//! targets of SMIL animations, the outline of the scene, and the pixel
//! conversion of animation frames. What needs floating-point arithmetic
//! (coordinates, curves, matrices, times) is left to the caller, which gets
//! byte ranges of the numbers' texts.

pub mod types;
pub mod text;
pub mod xml;
pub mod svg;
pub mod parse;
pub mod smil;
pub mod apng;

pub use types::{
    Additive, CalcMode, Color, FillMode, FillRule, GradientUnits, LineCap, LineJoin, SmilKind,
    SpreadMethod, SvgError, TransformType,
};
