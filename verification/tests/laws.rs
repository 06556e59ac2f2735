use svg::apng::unpremultiply;
use svg::parse::assign_auto_ids;
use svg::svg::color::{parse_color, ParsedColor};
use svg::svg::path_data::{parse_path_commands, PathArg};
use svg::svg::transform::parse_transform_calls;
use svg::xml::{parse_xml, XmlElement, XmlNode};

fn no_prefixes(e: &XmlElement) -> bool {
    !e.tag.contains(':')
        && e.attrs.iter().all(|(k, _)| !k.contains(':'))
        && e.children.iter().all(|c| match c {
            XmlNode::Element(x) => no_prefixes(x),
            XmlNode::Text(t) => !t.trim().is_empty(),
        })
}

#[test]
fn parsed_tree_has_no_prefixes_or_blank_text() {
    let doc = parse_xml(
        br##"<svg:svg xmlns:svg="http://www.w3.org/2000/svg" xmlns:xlink="x">
  <svg:g xml:space="keep"> <svg:use xlink:href="#a"/> text </svg:g>
</svg:svg>"##,
    )
    .unwrap();
    assert!(no_prefixes(&doc.root));
    assert_eq!(doc.root.tag, "svg");
    assert!(doc.root.attrs.is_empty());
}

#[test]
fn assigning_ids_twice_changes_nothing() {
    let mut doc = parse_xml(br#"<svg><rect><animate/></rect><g><circle><set/></circle></g></svg>"#).unwrap();
    let mut counter = 0;
    assign_auto_ids(&mut doc.root, &mut counter);
    assert_eq!(counter, 2);
    let first = format!("{:?}", doc.root);
    assign_auto_ids(&mut doc.root, &mut counter);
    assert_eq!(counter, 2);
    assert_eq!(format!("{:?}", doc.root), first);
}

#[test]
fn short_hex_equals_doubled_digits() {
    for (short, long) in [("#ABC", "#AABBCC"), ("#f0a", "#ff00aa"), ("#123", "#112233")] {
        assert_eq!(parse_color(short), parse_color(long));
        assert!(parse_color(short).is_some());
    }
    assert_eq!(parse_color("#12345678ff"), None);
    assert_eq!(parse_color("#123456FF"), parse_color("#123456"));
}

#[test]
fn path_commands_come_in_whole_uses() {
    let d = "M1 2 3 4 C1 2 3 4 5 6 a1 1 0 1 0 2 2 h5 z";
    let cmds = parse_path_commands(d).unwrap();
    let arity = |c: char| match c.to_ascii_uppercase() {
        'M' | 'L' | 'T' => 2,
        'H' | 'V' => 1,
        'C' => 6,
        'S' | 'Q' => 4,
        'A' => 7,
        _ => 0,
    };
    assert_eq!(cmds.len(), 5);
    for c in &cmds {
        for u in &c.uses {
            assert_eq!(u.len(), arity(c.letter));
            for (i, a) in u.iter().enumerate() {
                let flag = c.letter.to_ascii_uppercase() == 'A' && (i == 3 || i == 4);
                match a {
                    PathArg::Flag(_) => assert!(flag),
                    PathArg::Number(s, e) => {
                        assert!(!flag);
                        assert!(d[*s..*e].parse::<f32>().is_ok());
                    }
                }
            }
        }
    }
}

#[test]
fn transform_calls_take_their_argument_counts() {
    let (t, calls) = parse_transform_calls("translate(1) scale(2,3) rotate(4 5 6) matrix(1 0 0 1 0 0)");
    let calls = calls.unwrap();
    let counts: Vec<usize> = calls.iter().map(|c| c.args.len()).collect();
    assert_eq!(counts, vec![1, 2, 3, 6]);
    for c in &calls {
        for (s, e) in &c.args {
            assert!(t[*s..*e].parse::<f32>().is_ok());
        }
    }
}

#[test]
fn unpremultiply_keeps_alpha_of_every_pixel() {
    let data: Vec<u8> = (0..=255u8).flat_map(|a| [a / 2, a / 3, a, a]).collect();
    let out = unpremultiply(&data);
    assert_eq!(out.len(), data.len());
    for (i, px) in out.chunks(4).enumerate() {
        assert_eq!(px[3], data[4 * i + 3]);
        if px[3] == 0 {
            assert_eq!(px, &[0, 0, 0, 0]);
        }
        // a channel equal to alpha comes out at full intensity
        if px[3] != 0 {
            assert_eq!(px[2], 255);
        }
    }
}

#[test]
fn text_without_ampersand_is_kept() {
    for t in ["plain text", "ünïcödé ✓ <not a tag>", ""] {
        assert_eq!(svg::xml::tokenizer::resolve_entities(t), t);
    }
}

#[test]
fn assigned_ids_give_every_animation_a_target() {
    let mut doc = parse_xml(
        br##"<svg><rect><animate/></rect><circle id="c"><set/></circle><g><animateTransform href="#x"/></g></svg>"##,
    )
    .unwrap();
    let mut counter = 0;
    assign_auto_ids(&mut doc.root, &mut counter);
    let sites = svg::smil::animation_sites(&doc.root);
    let targets: Vec<&str> = sites.iter().map(|s| s.target_id.as_str()).collect();
    assert_eq!(targets, vec!["__smil_target_0", "c", "x"]);
}

#[test]
fn non_ascii_text_around_references_is_kept() {
    resolves("é&amp;", "é&");
    resolves("日本&lt;語&gt;", "日本<語>");
    resolves("ü & ö", "ü & ö");
    resolves("&#xE9;é&bogus;ß", "éé&bogus;ß");
}

fn resolves(input: &str, expected: &str) {
    assert_eq!(svg::xml::tokenizer::resolve_entities(input), expected);
}

#[test]
fn malformed_hex_colour_is_no_colour() {
    assert_eq!(parse_color("#0é000"), None);
    assert_eq!(parse_color("#éé"), None);
    assert_eq!(parse_color("#12345é"), None);
}

#[test]
fn colour_ignores_surrounding_whitespace() {
    for s in ["  red ", "\t#ABC\n", " rgba(1, 2, 3, 0.5) ", " none "] {
        assert_eq!(parse_color(s), parse_color(s.trim()));
    }
}

#[test]
fn only_eight_digits_or_rgba_carry_alpha() {
    for s in ["#ABC", "#AABBCC", "red", "rgb(1,2,3)"] {
        match parse_color(s).unwrap() {
            ParsedColor::Solid(c) => assert_eq!(c.a, 255),
            ParsedColor::Functional { alpha, .. } => assert!(alpha.is_none()),
        }
    }
    match parse_color("#AABBCC80").unwrap() {
        ParsedColor::Solid(c) => assert_eq!(c.a, 0x80),
        other => panic!("expected a solid colour, got {:?}", other),
    }
}

#[test]
fn namespace_declarations_are_dropped() {
    let doc = parse_xml(
        br#"<svg xmlns="http://www.w3.org/2000/svg" xmlns:xlink="http://www.w3.org/1999/xlink" viewBox="0 0 400 400"></svg>"#,
    )
    .unwrap();
    assert_eq!(doc.root.attrs, vec![("viewBox".to_string(), "0 0 400 400".to_string())]);
    let used = parse_xml(br##"<use xlink:href="#icon"/>"##).unwrap();
    assert_eq!(used.root.attribute("href"), Some("#icon"));
}

#[test]
fn ids_are_numbered_in_document_order() {
    let mut doc = parse_xml(
        br#"<svg><g><animate/><rect><set/></rect></g><circle id="c"><animate/></circle><path><animateTransform/></path></svg>"#,
    )
    .unwrap();
    let mut counter = 5;
    assign_auto_ids(&mut doc.root, &mut counter);
    assert_eq!(counter, 8);
    let g = match &doc.root.children[0] {
        XmlNode::Element(e) => e,
        _ => panic!("expected an element"),
    };
    assert_eq!(g.attribute("id"), Some("__smil_target_5"));
    match &g.children[1] {
        XmlNode::Element(rect) => assert_eq!(rect.attribute("id"), Some("__smil_target_6")),
        _ => panic!("expected an element"),
    }
    match &doc.root.children[1] {
        XmlNode::Element(c) => assert_eq!(c.attrs.len(), 1),
        _ => panic!("expected an element"),
    }
    match &doc.root.children[2] {
        XmlNode::Element(p) => assert_eq!(p.attribute("id"), Some("__smil_target_7")),
        _ => panic!("expected an element"),
    }
}
