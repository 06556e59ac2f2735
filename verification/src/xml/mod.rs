//! A small XML reader: a tokenizer over UTF-8 bytes and a tree builder.

pub mod tokenizer;
pub mod tree;

pub use tokenizer::{tokenize, XmlToken};
pub use tree::{parse_xml, XmlDocument, XmlElement, XmlNode};
