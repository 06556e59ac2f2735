//! SVG attribute syntax: colours, style keywords, path data, transform lists
//! and lists of numbers.

pub mod color;
pub mod style;
pub mod path_data;
pub mod transform;
pub mod lists;
