use svg::xml::tokenizer::{resolve_entities, tokenize, XmlToken};


#[test]
fn test_simple_open_close_tag() {
    let input = b"<root></root>";
    let tokens = tokenize(input).unwrap();
    assert_eq!(
        tokens,
        vec![
            XmlToken::OpenTag {
                name: "root".to_string(),
                attrs: vec![],
            },
            XmlToken::CloseTag {
                name: "root".to_string(),
            },
        ]
    );
}

#[test]
fn test_self_closing_tag() {
    let input = b"<br/>";
    let tokens = tokenize(input).unwrap();
    assert_eq!(
        tokens,
        vec![XmlToken::SelfClosingTag {
            name: "br".to_string(),
            attrs: vec![],
        }]
    );
}

#[test]
fn test_self_closing_tag_with_space() {
    let input = b"<br />";
    let tokens = tokenize(input).unwrap();
    assert_eq!(
        tokens,
        vec![XmlToken::SelfClosingTag {
            name: "br".to_string(),
            attrs: vec![],
        }]
    );
}

#[test]
fn tokenizer_test_attributes() {
    let input = b"<div class=\"main\" id='content'></div>";
    let tokens = tokenize(input).unwrap();
    assert_eq!(
        tokens,
        vec![
            XmlToken::OpenTag {
                name: "div".to_string(),
                attrs: vec![
                    ("class".to_string(), "main".to_string()),
                    ("id".to_string(), "content".to_string()),
                ],
            },
            XmlToken::CloseTag {
                name: "div".to_string(),
            },
        ]
    );
}

#[test]
fn tokenizer_test_text_node() {
    let input = b"<p>Hello World</p>";
    let tokens = tokenize(input).unwrap();
    assert_eq!(
        tokens,
        vec![
            XmlToken::OpenTag {
                name: "p".to_string(),
                attrs: vec![],
            },
            XmlToken::Text("Hello World".to_string()),
            XmlToken::CloseTag {
                name: "p".to_string(),
            },
        ]
    );
}

#[test]
fn test_entity_references_in_text() {
    let input = b"<p>A &amp; B &lt; C &gt; D &quot;E&quot; &apos;F&apos;</p>";
    let tokens = tokenize(input).unwrap();
    assert_eq!(
        tokens,
        vec![
            XmlToken::OpenTag {
                name: "p".to_string(),
                attrs: vec![],
            },
            XmlToken::Text("A & B < C > D \"E\" 'F'".to_string()),
            XmlToken::CloseTag {
                name: "p".to_string(),
            },
        ]
    );
}

#[test]
fn test_entity_references_in_attribute() {
    let input = b"<a href=\"a&amp;b\"></a>";
    let tokens = tokenize(input).unwrap();
    assert_eq!(
        tokens,
        vec![
            XmlToken::OpenTag {
                name: "a".to_string(),
                attrs: vec![("href".to_string(), "a&b".to_string())],
            },
            XmlToken::CloseTag {
                name: "a".to_string(),
            },
        ]
    );
}

#[test]
fn test_comment_skip() {
    let input = b"<root><!-- this is a comment --><child/></root>";
    let tokens = tokenize(input).unwrap();
    assert_eq!(
        tokens,
        vec![
            XmlToken::OpenTag {
                name: "root".to_string(),
                attrs: vec![],
            },
            XmlToken::SelfClosingTag {
                name: "child".to_string(),
                attrs: vec![],
            },
            XmlToken::CloseTag {
                name: "root".to_string(),
            },
        ]
    );
}

#[test]
fn test_pi_skip() {
    let input = b"<?xml version=\"1.0\" encoding=\"UTF-8\"?><root/>";
    let tokens = tokenize(input).unwrap();
    assert_eq!(
        tokens,
        vec![XmlToken::SelfClosingTag {
            name: "root".to_string(),
            attrs: vec![],
        }]
    );
}

#[test]
fn test_doctype_skip() {
    let input = b"<!DOCTYPE html><root/>";
    let tokens = tokenize(input).unwrap();
    assert_eq!(
        tokens,
        vec![XmlToken::SelfClosingTag {
            name: "root".to_string(),
            attrs: vec![],
        }]
    );
}

#[test]
fn test_doctype_with_internal_subset() {
    let input = b"<!DOCTYPE svg PUBLIC \"-//W3C//DTD SVG 1.1//EN\" \"http://www.w3.org/Graphics/SVG/1.1/DTD/svg11.dtd\" [<!ENTITY foo \"bar\">]><root/>";
    let tokens = tokenize(input).unwrap();
    assert_eq!(
        tokens,
        vec![XmlToken::SelfClosingTag {
            name: "root".to_string(),
            attrs: vec![],
        }]
    );
}

#[test]
fn test_cdata() {
    let input = b"<root><![CDATA[some <raw> & text]]></root>";
    let tokens = tokenize(input).unwrap();
    assert_eq!(
        tokens,
        vec![
            XmlToken::OpenTag {
                name: "root".to_string(),
                attrs: vec![],
            },
            XmlToken::Text("some <raw> & text".to_string()),
            XmlToken::CloseTag {
                name: "root".to_string(),
            },
        ]
    );
}

#[test]
fn test_namespace_prefix_in_tag_name() {
    let input = b"<svg:rect width=\"10\"/>";
    let tokens = tokenize(input).unwrap();
    // トークナイザーはプレフィックスを保持する (除去はツリー構築時)
    assert_eq!(
        tokens,
        vec![XmlToken::SelfClosingTag {
            name: "svg:rect".to_string(),
            attrs: vec![("width".to_string(), "10".to_string())],
        }]
    );
}

#[test]
fn test_namespace_prefix_in_attribute() {
    let input = b"<use xlink:href=\"#icon\"/>";
    let tokens = tokenize(input).unwrap();
    assert_eq!(
        tokens,
        vec![XmlToken::SelfClosingTag {
            name: "use".to_string(),
            attrs: vec![("xlink:href".to_string(), "#icon".to_string())],
        }]
    );
}

#[test]
fn tokenizer_test_nested_elements() {
    let input = b"<a><b><c/></b></a>";
    let tokens = tokenize(input).unwrap();
    assert_eq!(
        tokens,
        vec![
            XmlToken::OpenTag {
                name: "a".to_string(),
                attrs: vec![],
            },
            XmlToken::OpenTag {
                name: "b".to_string(),
                attrs: vec![],
            },
            XmlToken::SelfClosingTag {
                name: "c".to_string(),
                attrs: vec![],
            },
            XmlToken::CloseTag {
                name: "b".to_string(),
            },
            XmlToken::CloseTag {
                name: "a".to_string(),
            },
        ]
    );
}

#[test]
fn test_multiline_tag() {
    let input = b"<rect\n  x=\"10\"\n  y=\"20\"\n  width=\"100\"\n  height=\"50\"\n/>";
    let tokens = tokenize(input).unwrap();
    assert_eq!(
        tokens,
        vec![XmlToken::SelfClosingTag {
            name: "rect".to_string(),
            attrs: vec![
                ("x".to_string(), "10".to_string()),
                ("y".to_string(), "20".to_string()),
                ("width".to_string(), "100".to_string()),
                ("height".to_string(), "50".to_string()),
            ],
        }]
    );
}

#[test]
fn test_svg_header() {
    let input = b"<?xml version=\"1.0\" encoding=\"UTF-8\"?>\n<svg xmlns=\"http://www.w3.org/2000/svg\" viewBox=\"0 0 400 400\"></svg>";
    let tokens = tokenize(input).unwrap();
    assert_eq!(tokens.len(), 3); // whitespace text, OpenTag, CloseTag
    // テキストノード ("\n") は空白のみだが保持される
    assert_eq!(tokens[0], XmlToken::Text("\n".to_string()));
    match &tokens[1] {
        XmlToken::OpenTag { name, attrs } => {
            assert_eq!(name, "svg");
            assert_eq!(attrs.len(), 2);
            assert_eq!(attrs[0], ("xmlns".to_string(), "http://www.w3.org/2000/svg".to_string()));
            assert_eq!(attrs[1], ("viewBox".to_string(), "0 0 400 400".to_string()));
        }
        _ => panic!("Expected OpenTag"),
    }
    assert_eq!(
        tokens[2],
        XmlToken::CloseTag {
            name: "svg".to_string()
        }
    );
}

#[test]
fn test_numeric_entity_decimal() {
    let input = b"<p>&#65;&#66;</p>";
    let tokens = tokenize(input).unwrap();
    assert_eq!(
        tokens[1],
        XmlToken::Text("AB".to_string())
    );
}

#[test]
fn test_numeric_entity_hex() {
    let input = b"<p>&#x41;&#x42;</p>";
    let tokens = tokenize(input).unwrap();
    assert_eq!(
        tokens[1],
        XmlToken::Text("AB".to_string())
    );
}

#[test]
fn test_empty_self_closing() {
    let input = b"<path d=\"M0 0L10 10\" />";
    let tokens = tokenize(input).unwrap();
    assert_eq!(
        tokens,
        vec![XmlToken::SelfClosingTag {
            name: "path".to_string(),
            attrs: vec![("d".to_string(), "M0 0L10 10".to_string())],
        }]
    );
}

#[test]
fn test_resolve_entities_no_ampersand() {
    assert_eq!(resolve_entities("hello world"), "hello world");
}

#[test]
fn test_resolve_entities_all_five() {
    assert_eq!(
        resolve_entities("&amp;&lt;&gt;&quot;&apos;"),
        "&<>\"'"
    );
}

#[test]
fn test_resolve_entities_unknown() {
    // 未知のエンティティはそのまま残す
    assert_eq!(resolve_entities("&foo;"), "&foo;");
}

#[test]
fn test_unterminated_comment_error() {
    let input = b"<!-- unterminated";
    assert!(tokenize(input).is_err());
}

#[test]
fn test_unterminated_cdata_error() {
    let input = b"<![CDATA[unterminated";
    assert!(tokenize(input).is_err());
}

#[test]
fn test_unterminated_tag_error() {
    let input = b"<tag attr=\"value\"";
    assert!(tokenize(input).is_err());
}

#[test]
fn test_attribute_with_spaces_around_equals() {
    let input = b"<div class = \"main\"></div>";
    let tokens = tokenize(input).unwrap();
    match &tokens[0] {
        XmlToken::OpenTag { attrs, .. } => {
            assert_eq!(attrs[0], ("class".to_string(), "main".to_string()));
        }
        _ => panic!("Expected OpenTag"),
    }
}
