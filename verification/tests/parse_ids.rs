use svg::parse::assign_auto_ids;
use svg::xml;

#[test]
fn test_assign_auto_ids_to_element_with_smil_child() {
    let mut el = xml::XmlElement {
        tag: "rect".to_string(),
        attrs: vec![],
        children: vec![xml::XmlNode::Element(xml::XmlElement {
            tag: "animate".to_string(),
            attrs: vec![],
            children: Vec::new(),
        })],
    };

    let mut counter = 0;
    assign_auto_ids(&mut el, &mut counter);

    assert_eq!(el.attribute("id"), Some("__smil_target_0"));
    assert_eq!(counter, 1);
}

#[test]
fn test_assign_auto_ids_preserves_existing_id() {
    let mut el = xml::XmlElement {
        tag: "rect".to_string(),
        attrs: vec![("id".to_string(), "my-rect".to_string())],
        children: vec![xml::XmlNode::Element(xml::XmlElement {
            tag: "animate".to_string(),
            attrs: vec![],
            children: Vec::new(),
        })],
    };

    let mut counter = 0;
    assign_auto_ids(&mut el, &mut counter);

    assert_eq!(el.attribute("id"), Some("my-rect"));
    assert_eq!(counter, 0);
}

#[test]
fn test_assign_auto_ids_no_smil_children() {
    let mut el = xml::XmlElement {
        tag: "rect".to_string(),
        attrs: vec![],
        children: vec![xml::XmlNode::Element(xml::XmlElement {
            tag: "title".to_string(),
            attrs: vec![],
            children: Vec::new(),
        })],
    };

    let mut counter = 0;
    assign_auto_ids(&mut el, &mut counter);

    assert_eq!(el.attribute("id"), None);
    assert_eq!(counter, 0);
}

#[test]
fn test_assign_auto_ids_multiple_elements() {
    let mut el = xml::XmlElement {
        tag: "svg".to_string(),
        attrs: vec![],
        children: vec![
            xml::XmlNode::Element(xml::XmlElement {
                tag: "rect".to_string(),
                attrs: vec![],
                children: vec![xml::XmlNode::Element(xml::XmlElement {
                    tag: "animate".to_string(),
                    attrs: vec![],
                    children: Vec::new(),
                })],
            }),
            xml::XmlNode::Element(xml::XmlElement {
                tag: "circle".to_string(),
                attrs: vec![],
                children: vec![xml::XmlNode::Element(xml::XmlElement {
                    tag: "set".to_string(),
                    attrs: vec![],
                    children: Vec::new(),
                })],
            }),
        ],
    };

    let mut counter = 0;
    assign_auto_ids(&mut el, &mut counter);

    if let xml::XmlNode::Element(ref rect) = el.children[0] {
        assert_eq!(rect.attribute("id"), Some("__smil_target_0"));
    }
    if let xml::XmlNode::Element(ref circle) = el.children[1] {
        assert_eq!(circle.attribute("id"), Some("__smil_target_1"));
    }
    assert_eq!(counter, 2);
}
