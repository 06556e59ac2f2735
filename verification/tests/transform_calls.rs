use svg::svg::transform::{
    parse_number_list, parse_transform_calls, skip_whitespace, skip_whitespace_and_commas,
    TransformFn,
};

/// The calls of a transform list, each as its function and the texts of its
/// numbers; `None` for a malformed list.
fn calls(attr: &str) -> Option<Vec<(TransformFn, Vec<String>)>> {
    let (t, calls) = parse_transform_calls(attr);
    calls.map(|v| {
        v.iter()
            .map(|c| (c.function, c.args.iter().map(|(s, e)| t[*s..*e].to_string()).collect()))
            .collect()
    })
}

fn one(f: TransformFn, args: &[&str]) -> Vec<(TransformFn, Vec<String>)> {
    vec![(f, args.iter().map(|s| s.to_string()).collect())]
}

#[test]
fn calls_translate() {
    assert_eq!(calls("translate(10, 20)"), Some(one(TransformFn::Translate, &["10", "20"])));
    assert_eq!(calls("translate(5)"), Some(one(TransformFn::Translate, &["5"])));
    assert_eq!(calls("translate(10-20)"), Some(one(TransformFn::Translate, &["10", "-20"])));
}

#[test]
fn calls_each_function() {
    assert_eq!(calls("scale(2)"), Some(one(TransformFn::Scale, &["2"])));
    assert_eq!(calls("rotate(45 10 10)"), Some(one(TransformFn::Rotate, &["45", "10", "10"])));
    assert_eq!(calls("skewX(30)"), Some(one(TransformFn::SkewX, &["30"])));
    assert_eq!(calls("skewY(1e1)"), Some(one(TransformFn::SkewY, &["1e1"])));
    assert_eq!(
        calls("matrix(1,2,3,4,5,6)"),
        Some(one(TransformFn::Matrix, &["1", "2", "3", "4", "5", "6"]))
    );
}

#[test]
fn calls_in_order() {
    let v = calls("  translate(10,20) rotate(45)  ").unwrap();
    assert_eq!(v.len(), 2);
    assert_eq!(v[0].0, TransformFn::Translate);
    assert_eq!(v[1], (TransformFn::Rotate, vec!["45".to_string()]));
}

#[test]
fn calls_identity_cases() {
    assert_eq!(calls(""), Some(Vec::new()));
    assert_eq!(calls("   "), Some(Vec::new()));
    assert_eq!(calls("invalid"), None);
    assert_eq!(calls("translate(10"), None);
    assert_eq!(calls("translate 10"), None);
    assert_eq!(calls("rotate(1, 2)"), None);
    assert_eq!(calls("matrix(1,2,3)"), None);
    assert_eq!(calls("wobble(1)"), None);
}

#[test]
fn calls_numbers_stop_at_a_bad_text() {
    assert_eq!(calls("translate(3 abc)"), Some(one(TransformFn::Translate, &["3"])));
    assert_eq!(calls("scale(2 1e)"), Some(one(TransformFn::Scale, &["2"])));
}

#[test]
fn number_list_spans() {
    let t = b"(1 ,-2.5e3)";
    assert_eq!(parse_number_list(t, 1, 10), vec![(1, 2), (4, 10)]);
}

#[test]
fn skipping_blanks_and_commas() {
    let b = b" \t,\nx";
    assert_eq!(skip_whitespace(b, 0), 2);
    assert_eq!(skip_whitespace_and_commas(b, 0), 4);
    assert_eq!(skip_whitespace_and_commas(b, 5), 5);
}
