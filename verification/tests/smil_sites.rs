use svg::parse::{outline_children, SceneItem};
use svg::smil::{
    animated_attribute, animation_sites, is_color_attribute, is_indefinite, parse_additive,
    parse_calc_mode, parse_fill_mode, parse_transform_type, resolve_target_id, smil_kind_of,
    value_texts, ValueTexts,
};
use svg::xml::{parse_xml, XmlElement};
use svg::{Additive, CalcMode, FillMode, SmilKind, TransformType};

fn elem(tag: &str, attrs: &[(&str, &str)]) -> XmlElement {
    XmlElement {
        tag: tag.to_string(),
        attrs: attrs.iter().map(|(k, v)| (k.to_string(), v.to_string())).collect(),
        children: Vec::new(),
    }
}

#[test]
fn sites_target_from_parent_id() {
    let doc = parse_xml(
        br#"<svg><g id="target1"><animate attributeName="opacity" from="0" to="1" dur="2s"/></g></svg>"#,
    )
    .unwrap();
    let sites = animation_sites(&doc.root);
    assert_eq!(sites.len(), 1);
    assert_eq!(sites[0].kind, SmilKind::Animate);
    assert_eq!(sites[0].target_id, "target1");
    assert_eq!(sites[0].element.tag, "animate");
}

#[test]
fn sites_target_from_href() {
    let doc = parse_xml(
        br##"<svg><rect id="r"/><set xlink:href="#r" attributeName="fill" to="red"/></svg>"##,
    )
    .unwrap();
    let sites = animation_sites(&doc.root);
    assert_eq!(sites.len(), 1);
    assert_eq!(sites[0].kind, SmilKind::SetElement);
    assert_eq!(sites[0].target_id, "r");
}

#[test]
fn sites_in_document_order_deep_in_the_tree() {
    let doc = parse_xml(
        br#"<svg><g id="a"><g id="b"><animateTransform attributeName="transform"/></g></g><animate/><animateMotion/></svg>"#,
    )
    .unwrap();
    let sites = animation_sites(&doc.root);
    assert_eq!(sites.len(), 2);
    assert_eq!(sites[0].kind, SmilKind::AnimateTransform);
    assert_eq!(sites[0].target_id, "b");
    assert_eq!(sites[1].kind, SmilKind::Animate);
    assert_eq!(sites[1].target_id, "");
}

#[test]
fn target_id_rules() {
    let with_href = elem("animate", &[("href", "  #shape ")]);
    assert_eq!(resolve_target_id(&with_href, Some("parent")), "shape");
    let blank_href = elem("animate", &[("href", "   ")]);
    assert_eq!(resolve_target_id(&blank_href, Some("parent")), "parent");
    let plain_href = elem("animate", &[("href", "shape")]);
    assert_eq!(resolve_target_id(&plain_href, None), "shape");
    assert_eq!(resolve_target_id(&elem("animate", &[]), None), "");
}

#[test]
fn value_texts_sources() {
    match value_texts(&elem("animate", &[("values", "0; 0.5 ;1"), ("from", "9")])) {
        ValueTexts::List(v) => assert_eq!(v, vec!["0", "0.5", "1"]),
        other => panic!("expected a list, got {:?}", other),
    }
    match value_texts(&elem("animate", &[("from", " 0 "), ("to", "1")])) {
        ValueTexts::FromTo(f, t) => assert_eq!((f, t), ("0", "1")),
        other => panic!("expected from/to, got {:?}", other),
    }
    match value_texts(&elem("animate", &[("from", "1"), ("by", "2")])) {
        ValueTexts::FromBy(f, b) => assert_eq!((f, b), ("1", "2")),
        other => panic!("expected from/by, got {:?}", other),
    }
    match value_texts(&elem("animate", &[("to", "5"), ("by", "2")])) {
        ValueTexts::To(t) => assert_eq!(t, "5"),
        other => panic!("expected to, got {:?}", other),
    }
    assert!(matches!(value_texts(&elem("animate", &[("by", "2")])), ValueTexts::Absent));
}

#[test]
fn animated_attribute_rules() {
    let named = elem("animate", &[("attributeName", "opacity")]);
    assert_eq!(animated_attribute(&named, SmilKind::Animate), Some("opacity".to_string()));
    let unnamed = elem("set", &[]);
    assert_eq!(animated_attribute(&unnamed, SmilKind::SetElement), Some(String::new()));
    assert_eq!(animated_attribute(&unnamed, SmilKind::Animate), None);
}

#[test]
fn smil_keywords() {
    assert_eq!(smil_kind_of("set"), Some(SmilKind::SetElement));
    assert_eq!(smil_kind_of("animateMotion"), None);
    assert_eq!(parse_transform_type(" rotate "), TransformType::Rotate);
    assert_eq!(parse_transform_type("spin"), TransformType::Translate);
    assert_eq!(parse_calc_mode(Some("discrete")), CalcMode::Discrete);
    assert_eq!(parse_calc_mode(Some("Discrete")), CalcMode::Linear);
    assert_eq!(parse_calc_mode(None), CalcMode::Linear);
    assert_eq!(parse_additive(Some("sum")), Additive::Sum);
    assert_eq!(parse_additive(None), Additive::Replace);
    assert_eq!(parse_fill_mode(Some("freeze")), FillMode::Freeze);
    assert_eq!(parse_fill_mode(Some("remove")), FillMode::Remove);
    assert!(is_indefinite(" indefinite "));
    assert!(!is_indefinite("3"));
    assert!(is_color_attribute("stop-color"));
    assert!(!is_color_attribute("opacity"));
}

fn describe(items: &[SceneItem]) -> Vec<String> {
    items
        .iter()
        .map(|i| match i {
            SceneItem::Group(e, inner) => format!("{}[{}]", e.tag, describe(inner).join(",")),
            SceneItem::Shape(e) => e.tag.clone(),
        })
        .collect()
}

#[test]
fn outline_of_a_scene() {
    let doc = parse_xml(
        br#"<svg><title>t</title><g id="outer"><rect/><animate/><g><circle/></g></g><defs><path/><g/></defs><set/></svg>"#,
    )
    .unwrap();
    let items = outline_children(&doc.root);
    assert_eq!(describe(&items), vec!["g[rect,g[circle]]", "path", "g[]"]);
}
