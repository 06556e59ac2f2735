use svg::xml::tree::{parse_xml, XmlNode};


#[test]
fn test_simple_document() {
    let input = b"<root></root>";
    let doc = parse_xml(input).unwrap();
    assert_eq!(doc.root.tag, "root");
    assert!(doc.root.attrs.is_empty());
    assert!(doc.root.children.is_empty());
}

#[test]
fn test_self_closing_root() {
    let input = b"<root/>";
    let doc = parse_xml(input).unwrap();
    assert_eq!(doc.root.tag, "root");
}

#[test]
fn tree_test_nested_elements() {
    let input = b"<a><b><c/></b></a>";
    let doc = parse_xml(input).unwrap();
    assert_eq!(doc.root.tag, "a");
    assert_eq!(doc.root.children.len(), 1);

    let b = match &doc.root.children[0] {
        XmlNode::Element(e) => e,
        _ => panic!("Expected Element"),
    };
    assert_eq!(b.tag, "b");
    assert_eq!(b.children.len(), 1);

    let c = match &b.children[0] {
        XmlNode::Element(e) => e,
        _ => panic!("Expected Element"),
    };
    assert_eq!(c.tag, "c");
    assert!(c.children.is_empty());
}

#[test]
fn tree_test_text_node() {
    let input = b"<p>Hello</p>";
    let doc = parse_xml(input).unwrap();
    assert_eq!(doc.root.children.len(), 1);
    match &doc.root.children[0] {
        XmlNode::Text(t) => assert_eq!(t, "Hello"),
        _ => panic!("Expected Text"),
    }
}

#[test]
fn test_whitespace_text_filtered() {
    // 空白のみのテキストノードはフィルタされる
    let input = b"<root>  \n  <child/>  \n  </root>";
    let doc = parse_xml(input).unwrap();
    assert_eq!(doc.root.children.len(), 1);
    match &doc.root.children[0] {
        XmlNode::Element(e) => assert_eq!(e.tag, "child"),
        _ => panic!("Expected Element"),
    }
}

#[test]
fn tree_test_attributes() {
    let input = b"<rect x=\"10\" y=\"20\" width=\"100\" height=\"50\"/>";
    let doc = parse_xml(input).unwrap();
    assert_eq!(doc.root.attribute("x"), Some("10"));
    assert_eq!(doc.root.attribute("y"), Some("20"));
    assert_eq!(doc.root.attribute("width"), Some("100"));
    assert_eq!(doc.root.attribute("height"), Some("50"));
    assert_eq!(doc.root.attribute("nonexistent"), None);
}

#[test]
fn test_namespace_prefix_stripped_from_tag() {
    // svg:rect → rect
    let input = b"<svg:rect width=\"10\"/>";
    let doc = parse_xml(input).unwrap();
    assert_eq!(doc.root.tag, "rect");
}

#[test]
fn test_namespace_prefix_stripped_from_attribute() {
    // xlink:href → href
    let input = b"<use xlink:href=\"#icon\"/>";
    let doc = parse_xml(input).unwrap();
    assert_eq!(doc.root.attribute("href"), Some("#icon"));
}

#[test]
fn test_xmlns_attributes_removed() {
    let input = b"<svg xmlns=\"http://www.w3.org/2000/svg\" xmlns:xlink=\"http://www.w3.org/1999/xlink\" viewBox=\"0 0 400 400\"></svg>";
    let doc = parse_xml(input).unwrap();
    // xmlns, xmlns:xlink は除去されている
    assert_eq!(doc.root.attribute("xmlns"), None);
    // viewBox は残っている
    assert_eq!(doc.root.attribute("viewBox"), Some("0 0 400 400"));
    // 属性は 1 つだけ (viewBox のみ)
    assert_eq!(doc.root.attrs.len(), 1);
}

#[test]
fn test_children_elements_iterator() {
    let input = b"<root><a/><b/>text<c/></root>";
    let doc = parse_xml(input).unwrap();
    let element_tags: Vec<&str> = doc
        .root
        .children_elements()
        .iter()
        .map(|e| e.tag.as_str())
        .collect();
    assert_eq!(element_tags, vec!["a", "b", "c"]);
}

#[test]
fn test_xml_declaration_and_svg() {
    let input = b"<?xml version=\"1.0\" encoding=\"UTF-8\"?>\n<svg viewBox=\"0 0 100 100\"><rect width=\"50\" height=\"50\"/></svg>";
    let doc = parse_xml(input).unwrap();
    assert_eq!(doc.root.tag, "svg");
    assert_eq!(doc.root.attribute("viewBox"), Some("0 0 100 100"));
    assert_eq!(doc.root.children.len(), 1);
    let rect = match &doc.root.children[0] {
        XmlNode::Element(e) => e,
        _ => panic!("Expected Element"),
    };
    assert_eq!(rect.tag, "rect");
    assert_eq!(rect.attribute("width"), Some("50"));
}

#[test]
fn test_mismatched_tags_error() {
    let input = b"<a></b>";
    let result = parse_xml(input);
    assert!(result.is_err());
    let err = result.unwrap_err();
    assert!(err.contains("Mismatched tags"));
}

#[test]
fn test_empty_document_error() {
    let result = parse_xml(b"");
    assert!(result.is_err());
}

#[test]
fn test_comment_skipped_in_tree() {
    let input = b"<root><!-- comment --><child/></root>";
    let doc = parse_xml(input).unwrap();
    assert_eq!(doc.root.children.len(), 1);
    match &doc.root.children[0] {
        XmlNode::Element(e) => assert_eq!(e.tag, "child"),
        _ => panic!("Expected Element"),
    }
}

#[test]
fn test_cdata_as_text() {
    let input = b"<root><![CDATA[raw content & <tags>]]></root>";
    let doc = parse_xml(input).unwrap();
    assert_eq!(doc.root.children.len(), 1);
    match &doc.root.children[0] {
        XmlNode::Text(t) => assert_eq!(t, "raw content & <tags>"),
        _ => panic!("Expected Text"),
    }
}

#[test]
fn test_entity_references_in_tree() {
    let input = b"<p>A &amp; B &lt; C</p>";
    let doc = parse_xml(input).unwrap();
    match &doc.root.children[0] {
        XmlNode::Text(t) => assert_eq!(t, "A & B < C"),
        _ => panic!("Expected Text"),
    }
}

#[test]
fn test_multiple_children() {
    let input = b"<root><a x=\"1\"/><b/><c><d/></c></root>";
    let doc = parse_xml(input).unwrap();
    assert_eq!(doc.root.children.len(), 3);

    let tags: Vec<&str> = doc
        .root
        .children_elements()
        .iter()
        .map(|e| e.tag.as_str())
        .collect();
    assert_eq!(tags, vec!["a", "b", "c"]);

    // <a> has attribute x="1"
    let a = doc.root.children_elements()[0];
    assert_eq!(a.attribute("x"), Some("1"));

    // <c> has child <d>
    let c = doc.root.children_elements()[2];
    assert_eq!(c.children.len(), 1);
}

#[test]
fn test_realistic_svg_fragment() {
    let input = br##"<?xml version="1.0" encoding="UTF-8"?>
<svg xmlns="http://www.w3.org/2000/svg" xmlns:xlink="http://www.w3.org/1999/xlink" viewBox="0 0 400 400">
  <g id="group1" transform="translate(10,20)">
<rect x="0" y="0" width="100" height="50" fill="#FF0000"/>
<circle cx="50" cy="25" r="10"/>
<path d="M0 0L10 10Z"/>
  </g>
</svg>"##;
    let doc = parse_xml(input).unwrap();
    assert_eq!(doc.root.tag, "svg");
    assert_eq!(doc.root.attribute("viewBox"), Some("0 0 400 400"));
    // xmlns, xmlns:xlink は除去済み
    assert_eq!(doc.root.attribute("xmlns"), None);

    // <g> 要素
    let g = doc.root.children_elements()[0];
    assert_eq!(g.tag, "g");
    assert_eq!(g.attribute("id"), Some("group1"));
    assert_eq!(g.attribute("transform"), Some("translate(10,20)"));

    // <g> の子要素
    let child_tags: Vec<&str> = g.children_elements().iter().map(|e| e.tag.as_str()).collect();
    assert_eq!(child_tags, vec!["rect", "circle", "path"]);

    // <rect> の属性
    let rect = g.children_elements()[0];
    assert_eq!(rect.attribute("fill"), Some("#FF0000"));
    assert_eq!(rect.attribute("width"), Some("100"));
}

#[test]
fn test_doctype_skipped() {
    let input = b"<!DOCTYPE svg PUBLIC \"-//W3C//DTD SVG 1.1//EN\" \"http://www.w3.org/Graphics/SVG/1.1/DTD/svg11.dtd\"><svg/>";
    let doc = parse_xml(input).unwrap();
    assert_eq!(doc.root.tag, "svg");
}

#[test]
fn test_mixed_text_and_elements() {
    let input = b"<root>before<child/>after</root>";
    let doc = parse_xml(input).unwrap();
    assert_eq!(doc.root.children.len(), 3);
    match &doc.root.children[0] {
        XmlNode::Text(t) => assert_eq!(t, "before"),
        _ => panic!("Expected Text"),
    }
    match &doc.root.children[1] {
        XmlNode::Element(e) => assert_eq!(e.tag, "child"),
        _ => panic!("Expected Element"),
    }
    match &doc.root.children[2] {
        XmlNode::Text(t) => assert_eq!(t, "after"),
        _ => panic!("Expected Text"),
    }
}
