use svg::svg::transform::{skip_whitespace, skip_whitespace_and_commas};
use svg::svg::lists::list_items;
use svg::svg::style::{is_none_value, parse_fill_rule, parse_line_cap, parse_line_join};
use svg::text::decimal_string;
use svg::{FillRule, LineCap, LineJoin, SvgError};

#[test]
fn style_keywords() {
    assert_eq!(parse_fill_rule(Some("EvenOdd")), FillRule::EvenOdd);
    assert_eq!(parse_fill_rule(None), FillRule::NonZero);
    assert_eq!(parse_line_cap(Some("ROUND")), LineCap::Round);
    assert_eq!(parse_line_cap(Some("square")), LineCap::Square);
    assert_eq!(parse_line_cap(Some("flat")), LineCap::Butt);
    assert_eq!(parse_line_join(Some("bevel")), LineJoin::Bevel);
    assert_eq!(parse_line_join(Some("Round")), LineJoin::Round);
    assert_eq!(parse_line_join(None), LineJoin::Miter);
    assert!(is_none_value("NoNe"));
    assert!(!is_none_value(" none"));
}

#[test]
fn error_messages() {
    assert_eq!(SvgError::XmlParse("x".to_string()).message(), "XML parse error: x");
    assert_eq!(SvgError::InvalidSvg("y".to_string()).message(), "Invalid SVG: y");
    assert_eq!(SvgError::InvalidPathData("z".to_string()).message(), "Invalid path data: z");
}

#[test]
fn decimal_rendering() {
    assert_eq!(decimal_string(0), "0");
    assert_eq!(decimal_string(907), "907");
    assert_eq!(decimal_string(u64::MAX), "18446744073709551615");
}

#[test]
fn unclosed_elements_are_listed() {
    let err = svg::xml::parse_xml(b"<a><b>").unwrap_err();
    assert_eq!(err, "Unclosed elements: [\"a\", \"b\"]");
}

#[test]
fn invalid_utf8_is_refused() {
    let err = svg::xml::parse_xml(b"<a>\xff</a>").unwrap_err();
    assert!(err.starts_with("Invalid UTF-8: "));
    assert!(err.len() > "Invalid UTF-8: ".len());
}

#[test]
fn numeric_entities_outside_unicode_stay_as_written() {
    let doc = svg::xml::parse_xml(b"<a>&#xD800;&#x1F600;</a>").unwrap();
    match &doc.root.children[0] {
        svg::xml::XmlNode::Text(t) => assert_eq!(t, "&#xD800;\u{1F600}"),
        other => panic!("expected text, got {:?}", other),
    }
}

#[test]
fn list_items_split_on_commas_and_whitespace() {
    let s = " 10,20\t 30 ,,4e1\n";
    let items: Vec<&str> = list_items(s).iter().map(|(a, b)| &s[*a..*b]).collect();
    assert_eq!(items, vec!["10", "20", "30", "4e1"]);
    assert!(list_items(" , ").is_empty());
    let u = "ü,é";
    let pieces: Vec<&str> = list_items(u).iter().map(|(a, b)| &u[*a..*b]).collect();
    assert_eq!(pieces, vec!["ü", "é"]);
}

#[test]
fn svg_tree_errors() {
    match svg::parse::read_svg_tree(b"<div></div>") {
        Err(SvgError::InvalidSvg(m)) => assert_eq!(m, "Root element is not <svg>"),
        other => panic!("expected InvalidSvg, got {:?}", other),
    }
    match svg::parse::read_svg_tree(b"<<<not xml>>>") {
        Err(SvgError::XmlParse(_)) => {}
        other => panic!("expected XmlParse, got {:?}", other),
    }
    let doc = svg::parse::read_svg_tree(b"<svg viewBox=\"0 0 1 1\"/>").unwrap();
    assert_eq!(doc.root.attribute("viewBox"), Some("0 0 1 1"));
}

#[test]
fn trees_and_errors_compare_and_copy() {
    let doc = svg::xml::parse_xml(b"<a x=\"1\"><b>t</b><c/></a>").unwrap();
    let copy = doc.clone();
    assert_eq!(copy, doc);
    assert_eq!(doc.root.children[0].clone(), doc.root.children[0]);
    let other = svg::xml::parse_xml(b"<a x=\"2\"><b>t</b><c/></a>").unwrap();
    assert_ne!(other, doc);
    assert_eq!(SvgError::InvalidSvg("x".to_string()), SvgError::InvalidSvg("x".to_string()));
    assert_ne!(SvgError::InvalidSvg("x".to_string()), SvgError::XmlParse("x".to_string()));
}

#[test]
fn skipping_past_the_end_returns_the_position() {
    assert_eq!(skip_whitespace(b"ab", 7), 7);
    assert_eq!(skip_whitespace_and_commas(b" ,", 9), 9);
    assert_eq!(skip_whitespace_and_commas(b" ,x", 0), 2);
}
