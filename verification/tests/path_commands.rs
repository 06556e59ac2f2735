use svg::svg::path_data::{parse_path_commands, PathArg, PathDataError, PathTokenizer};

/// The commands of `d`, each as its letter and, for every use, the texts of
/// its numbers (flags written as `0`/`1` in brackets).
fn read(d: &str) -> Vec<(char, Vec<Vec<String>>)> {
    let cmds = parse_path_commands(d).expect("path data should be accepted");
    cmds.iter()
        .map(|c| {
            let uses = c
                .uses
                .iter()
                .map(|u| {
                    u.iter()
                        .map(|a| match a {
                            PathArg::Number(s, e) => d[*s..*e].to_string(),
                            PathArg::Flag(f) => format!("[{}]", if *f { 1 } else { 0 }),
                        })
                        .collect()
                })
                .collect();
            (c.letter, uses)
        })
        .collect()
}

fn strs(v: &[&[&str]]) -> Vec<Vec<String>> {
    v.iter().map(|u| u.iter().map(|s| s.to_string()).collect()).collect()
}

fn syntax_error(d: &str) -> String {
    match parse_path_commands(d) {
        Err(PathDataError::Syntax(m)) => m,
        other => panic!("expected a syntax error, got {:?}", other),
    }
}

#[test]
fn commands_move_and_line() {
    assert_eq!(
        read("M 10 20 L 30 40"),
        vec![('M', strs(&[&["10", "20"]])), ('L', strs(&[&["30", "40"]]))]
    );
}

#[test]
fn commands_implicit_repetition() {
    assert_eq!(
        read("M 10 20 30 40 50 60"),
        vec![('M', strs(&[&["10", "20"], &["30", "40"], &["50", "60"]]))]
    );
    assert_eq!(read("M 0 0 H 10 20 30")[1], ('H', strs(&[&["10"], &["20"], &["30"]])));
}

#[test]
fn commands_minus_sign_and_point_separate_numbers() {
    assert_eq!(
        read("M10-20L30-40"),
        vec![('M', strs(&[&["10", "-20"]])), ('L', strs(&[&["30", "-40"]]))]
    );
    assert_eq!(read("M1.5.7 0 0"), vec![('M', strs(&[&["1.5", ".7"], &["0", "0"]]))]);
}

#[test]
fn commands_close_takes_no_numbers() {
    assert_eq!(
        read("M0 0L10 10Z"),
        vec![
            ('M', strs(&[&["0", "0"]])),
            ('L', strs(&[&["10", "10"]])),
            ('Z', Vec::new()),
        ]
    );
}

#[test]
fn commands_arc_flags() {
    assert_eq!(
        read("M 0 0 A25 25 0 01 50 0")[1],
        ('A', strs(&[&["25", "25", "0", "[0]", "[1]", "50", "0"]]))
    );
    assert_eq!(
        read("M 0 0 A 50 50 0 1 0 100 0")[1],
        ('A', strs(&[&["50", "50", "0", "[1]", "[0]", "100", "0"]]))
    );
}

#[test]
fn commands_scientific_notation() {
    assert_eq!(read("M 1e2 2.5E1"), vec![('M', strs(&[&["1e2", "2.5E1"]]))]);
}

#[test]
fn commands_empty_and_blank() {
    assert!(parse_path_commands("").unwrap().is_empty());
    assert!(parse_path_commands("   \n\t  ").unwrap().is_empty());
}

#[test]
fn commands_stop_where_a_number_stands_for_a_command() {
    assert_eq!(read("M 0 0 Z 5 6"), vec![('M', strs(&[&["0", "0"]])), ('Z', Vec::new())]);
}

#[test]
fn commands_unknown_letter_is_refused() {
    assert_eq!(syntax_error("M 0 0 X 1"), "Unknown path command: 'X'");
}

#[test]
fn commands_missing_number_errors() {
    assert_eq!(syntax_error("M 10"), "Expected number, got end of input");
    assert_eq!(syntax_error("M 10 L"), "Expected number at position 5");
}

#[test]
fn commands_bad_flag_errors() {
    assert_eq!(syntax_error("M 0 0 A 1 1 0 2 0 5 5"), "Expected flag (0 or 1), got '2'");
    assert_eq!(syntax_error("M 0 0 A 1 1 0"), "Expected flag, got end of input");
}

#[test]
fn commands_invalid_number_text() {
    match parse_path_commands("M 1e 2") {
        Err(PathDataError::InvalidNumber(s, e)) => assert_eq!((s, e), (2, 4)),
        other => panic!("expected an invalid number, got {:?}", other),
    }
    match parse_path_commands("M - 2") {
        Err(PathDataError::InvalidNumber(s, e)) => assert_eq!((s, e), (2, 3)),
        other => panic!("expected an invalid number, got {:?}", other),
    }
}

#[test]
fn tokenizer_steps() {
    let mut t = PathTokenizer::new(" , M1,2");
    assert_eq!(t.next_command(), Some('M'));
    assert!(t.has_number());
    assert_eq!(t.next_number().unwrap(), (4, 5));
    assert_eq!(t.next_number().unwrap(), (6, 7));
    assert_eq!(t.position(), 7);
    assert!(!t.has_number());
    assert_eq!(t.next_command(), None);
}

#[test]
fn tokenizer_next_command_skips_other_bytes() {
    let mut t = PathTokenizer::new("#!L");
    assert_eq!(t.next_command(), Some('L'));
    let mut u = PathTokenizer::new("  -3");
    assert_eq!(u.next_command(), None);
    assert_eq!(u.position(), 2);
}

#[test]
fn tokenizer_flags() {
    let mut t = PathTokenizer::new(" 1,0");
    assert_eq!(t.next_flag(), Ok(true));
    assert_eq!(t.next_flag(), Ok(false));
    assert_eq!(t.next_flag(), Err("Expected flag, got end of input".to_string()));
}
