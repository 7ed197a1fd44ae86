use dotecnf::error::ECnfLoaderError;
use dotecnf::parser::{ECnfParser, PREFIX_KEY_SEPARATOR, PREFIX_SEPARATOR};
use std::collections::HashMap;

fn load(input: &str) -> Result<HashMap<String, Option<String>>, ECnfLoaderError> {
    let mut parser = ECnfParser::new();
    parser.load(input)?;
    Ok(parser.build_ecnf())
}

fn mapping(pairs: &[(&str, Option<&str>)]) -> HashMap<String, Option<String>> {
    pairs
        .iter()
        .map(|(k, v)| (k.to_string(), v.map(|v| v.to_string())))
        .collect()
}

fn failure(input: &str) -> ECnfLoaderError {
    match load(input) {
        Ok(read) => panic!("accepted {:?} as {:?}", input, read),
        Err(e) => e,
    }
}

#[test]
fn separators_are_dots() {
    assert_eq!(PREFIX_SEPARATOR, ".");
    assert_eq!(PREFIX_KEY_SEPARATOR, ".");
}

#[test]
fn new_parser_has_read_nothing() {
    let parser = ECnfParser::new();
    assert_eq!(parser.line_num(), 0);
    assert!(parser.build_ecnf().is_empty());
    assert!(parser.entries().is_empty());
    assert_eq!(parser.join_prefix(), "");
    assert_eq!(parser.build_key("K"), "K");
    assert_eq!(parser.finish(), Ok(()));
}

#[test]
fn section_is_flattened_into_the_path() {
    let read = load("DB: {\nNAME: \"x\"\n}").unwrap();
    assert_eq!(read, mapping(&[("DB.NAME", Some("x"))]));
}

#[test]
fn nested_sections_scope_the_key() {
    let read = load("A: {\nB: {\nC: \"v\"\n}\n}").unwrap();
    assert_eq!(read, mapping(&[("A.B.C", Some("v"))]));
    assert_eq!(read.len(), 1);
}

#[test]
fn closed_section_scopes_no_later_key() {
    let read = load("A: {\nB: {\nC: \"1\"\n}\nD: \"2\"\n}\nE: \"3\"").unwrap();
    assert_eq!(
        read,
        mapping(&[("A.B.C", Some("1")), ("A.D", Some("2")), ("E", Some("3"))])
    );
}

#[test]
fn absent_value_differs_from_empty_value() {
    assert_eq!(load("K: ").unwrap(), mapping(&[("K", None)]));
    assert_eq!(load("K: \"\"").unwrap(), mapping(&[("K", Some(""))]));
    assert_ne!(load("K: ").unwrap(), load("K: \"\"").unwrap());
}

#[test]
fn unterminated_section_fails_at_the_last_line() {
    assert_eq!(failure("A: {\n"), ECnfLoaderError::FailParse(1, "A".to_string()));
    assert_eq!(failure("A: {"), ECnfLoaderError::FailParse(1, "A".to_string()));
    assert_eq!(failure("A: {\n\n\n"), ECnfLoaderError::FailParse(3, "A".to_string()));
}

#[test]
fn unterminated_section_is_named_by_its_whole_path() {
    assert_eq!(
        failure("A: {\nB: {\nC: {\n}\n"),
        ECnfLoaderError::FailParse(4, "A.B".to_string())
    );
    assert_eq!(
        failure("A: {\nB_C: {\nD: {"),
        ECnfLoaderError::FailParse(3, "A.B_C.D".to_string())
    );
}

#[test]
fn close_without_section_is_illegal() {
    assert_eq!(failure("}"), ECnfLoaderError::IllegalRightMidParen(1, "}".to_string()));
    assert_eq!(
        failure("A: {\n}\n  }  "),
        ECnfLoaderError::IllegalRightMidParen(3, "}".to_string())
    );
}

#[test]
fn equals_sign_is_no_separator() {
    assert_eq!(
        failure("HOGE=\"x\""),
        ECnfLoaderError::UnknownSeparator(1, "HOGE=\"x\"".to_string(), '=')
    );
}

#[test]
fn missing_separator_is_reported_as_nul() {
    assert_eq!(
        failure("  HOGE  "),
        ECnfLoaderError::UnknownSeparator(1, "HOGE".to_string(), '\0')
    );
}

#[test]
fn underscore_cannot_begin_a_key() {
    assert_eq!(
        failure("_HOGE:\"x\""),
        ECnfLoaderError::FailParseKey(1, "_HOGE:\"x\"".to_string())
    );
}

#[test]
fn inline_empty_section_is_refused() {
    assert_eq!(
        failure("A: {}"),
        ECnfLoaderError::UnknownValue(1, "A: {}".to_string(), "{}".to_string())
    );
}

#[test]
fn section_opener_with_more_text_is_refused() {
    assert_eq!(
        failure("A: { EXTRA"),
        ECnfLoaderError::UnknownValue(1, "A: { EXTRA".to_string(), "{ EXTRA".to_string())
    );
}

#[test]
fn single_quote_mark_is_no_value() {
    assert_eq!(
        failure("K: \""),
        ECnfLoaderError::UnknownValue(1, "K: \"".to_string(), "\"".to_string())
    );
}

#[test]
fn comment_behind_a_value_is_refused() {
    assert_eq!(
        failure("KEY: \"x\"  # note"),
        ECnfLoaderError::UnknownValue(
            1,
            "KEY: \"x\"  # note".to_string(),
            "\"x\"  # note".to_string()
        )
    );
}

#[test]
fn quotes_inside_a_value_are_kept() {
    let read = load("K: \"a \"b\" c\"").unwrap();
    assert_eq!(read, mapping(&[("K", Some("a \"b\" c"))]));
}

#[test]
fn failure_carries_the_trimmed_line() {
    assert_eq!(
        failure("\t  v: \"x\"  \r\n"),
        ECnfLoaderError::FailParseKey(1, "v: \"x\"".to_string())
    );
}

#[test]
fn comments_and_blank_lines_are_counted() {
    let silent = ["", "   ", "# comment", "\t# KEY: \"v\"", "#", "\r"];
    for n in 0..=12 {
        let mut text = String::new();
        for i in 0..n {
            text.push_str(silent[i % silent.len()]);
            text.push('\n');
        }
        text.push_str("HOGE=\"x\"\nOTHER: \"y\"\n");
        assert_eq!(
            failure(&text),
            ECnfLoaderError::UnknownSeparator(n as u16 + 1, "HOGE=\"x\"".to_string(), '=')
        );
    }
}

#[test]
fn comments_and_blank_lines_are_counted_before_a_close() {
    assert_eq!(
        failure("# one\n\n# three\n}"),
        ECnfLoaderError::IllegalRightMidParen(4, "}".to_string())
    );
}

#[test]
fn last_write_wins() {
    let read = load("K: \"a\"\nK: \"b\"").unwrap();
    assert_eq!(read, mapping(&[("K", Some("b"))]));
}

#[test]
fn last_write_wins_inside_a_section_and_over_absence() {
    let read = load("S: {\nK: \"a\"\nK:\n}\nS: {\nJ:\nJ: \"\"\n}").unwrap();
    assert_eq!(read, mapping(&[("S.K", None), ("S.J", Some(""))]));
}

#[test]
fn same_key_in_other_section_is_another_path() {
    let read = load("K: \"top\"\nS: {\nK: \"in\"\n}").unwrap();
    assert_eq!(read, mapping(&[("K", Some("top")), ("S.K", Some("in"))]));
}

#[test]
fn each_path_is_listed_once() {
    let mut parser = ECnfParser::new();
    parser.load("A: \"1\"\nB: \"2\"\nA: \"3\"\nB:\nC: \"\"\nA: \"4\"").unwrap();
    let mut listed = parser.entries();
    assert_eq!(listed.len(), 3);
    listed.sort();
    assert_eq!(
        listed,
        vec![
            ("A".to_string(), Some("4".to_string())),
            ("B".to_string(), None),
            ("C".to_string(), Some("".to_string())),
        ]
    );
}

#[test]
fn parsing_is_deterministic() {
    let text = "\n# app\nVERSION :  \"4.2.23\"\nSCREEN:{\nSC_ONE:\nSC_TWO: \"default\"\n}";
    let first = load(text).unwrap();
    let second = load(text).unwrap();
    assert_eq!(first, second);
    assert_eq!(
        first,
        mapping(&[
            ("VERSION", Some("4.2.23")),
            ("SCREEN.SC_ONE", None),
            ("SCREEN.SC_TWO", Some("default")),
        ])
    );
    assert_eq!(failure("A: {\nB=\n"), failure("A: {\nB=\n"));
}

#[test]
fn carriage_returns_end_lines_too() {
    let read = load("A: {\r\nK: \"v\"\r\n}\r\n").unwrap();
    assert_eq!(read, mapping(&[("A.K", Some("v"))]));
    assert_eq!(
        failure("\r\nK= \r\n"),
        ECnfLoaderError::UnknownSeparator(2, "K=".to_string(), '=')
    );
}

#[test]
fn wide_whitespace_is_whitespace() {
    let read = load("\u{3000}K\u{a0}:\u{2003}\"v\"\u{3000}").unwrap();
    assert_eq!(read, mapping(&[("K", Some("v"))]));
}

#[test]
fn lines_are_counted_across_loads() {
    let mut parser = ECnfParser::new();
    assert_eq!(parser.load("A: \"1\"\n# two\n"), Ok(()));
    assert_eq!(parser.line_num(), 2);
    assert_eq!(
        parser.load("B: \"2\"\n}"),
        Err(ECnfLoaderError::IllegalRightMidParen(4, "}".to_string()))
    );
    assert_eq!(parser.line_num(), 4);
}

#[test]
fn what_was_read_before_a_failure_stays_read() {
    let mut parser = ECnfParser::new();
    let r = parser.load("A: \"1\"\nS: {\nB: \"2\"\nbad\nC: \"3\"");
    assert_eq!(r, Err(ECnfLoaderError::FailParseKey(4, "bad".to_string())));
    assert_eq!(parser.build_ecnf(), mapping(&[("A", Some("1")), ("S.B", Some("2"))]));
    assert_eq!(parser.line_num(), 4);
    assert_eq!(parser.join_prefix(), "S");
}

#[test]
fn load_line_reads_one_line() {
    let mut parser = ECnfParser::new();
    assert_eq!(parser.load_line("  DB : {  "), Ok(()));
    assert_eq!(parser.line_num(), 1);
    assert_eq!(parser.join_prefix(), "DB");
    assert_eq!(parser.build_key("PATH"), "DB.PATH");
    assert_eq!(
        parser.finish(),
        Err(ECnfLoaderError::FailParse(1, "DB".to_string()))
    );
    assert_eq!(parser.load_line("LOG_FILE: {"), Ok(()));
    assert_eq!(parser.join_prefix(), "DB.LOG_FILE");
    assert_eq!(parser.build_key("PATH"), "DB.LOG_FILE.PATH");
    assert_eq!(parser.load_line("PATH: \"database.log\""), Ok(()));
    assert_eq!(parser.load_line("# comment"), Ok(()));
    assert_eq!(parser.load_line(""), Ok(()));
    assert_eq!(parser.load_line("}"), Ok(()));
    assert_eq!(parser.join_prefix(), "DB");
    assert_eq!(parser.load_line("}"), Ok(()));
    assert_eq!(parser.join_prefix(), "");
    assert_eq!(parser.line_num(), 7);
    assert_eq!(parser.finish(), Ok(()));
    assert_eq!(
        parser.entries(),
        vec![("DB.LOG_FILE.PATH".to_string(), Some("database.log".to_string()))]
    );
    assert_eq!(
        parser.build_ecnf(),
        mapping(&[("DB.LOG_FILE.PATH", Some("database.log"))])
    );
    assert_eq!(
        parser.load_line("}"),
        Err(ECnfLoaderError::IllegalRightMidParen(8, "}".to_string()))
    );
    assert_eq!(parser.line_num(), 8);
}

#[test]
fn refused_line_is_counted_and_changes_nothing_else() {
    let mut parser = ECnfParser::new();
    parser.load_line("S: {").unwrap();
    parser.load_line("K: \"v\"").unwrap();
    let before = parser.build_ecnf();
    assert!(parser.load_line("K: 'w'").is_err());
    assert_eq!(parser.line_num(), 3);
    assert_eq!(parser.join_prefix(), "S");
    assert_eq!(parser.build_ecnf(), before);
}

#[test]
fn line_by_line_agrees_with_load() {
    let text = "A: {\n  B: \"1\"\n  # c\n\n  C: {\n    D:\n  }\n}\nE: \"\"";
    let mut whole = ECnfParser::new();
    whole.load(text).unwrap();
    let mut stepwise = ECnfParser::new();
    for line in text.lines() {
        stepwise.load_line(line).unwrap();
    }
    stepwise.finish().unwrap();
    assert_eq!(whole.build_ecnf(), stepwise.build_ecnf());
    assert_eq!(whole.entries(), stepwise.entries());
    assert_eq!(whole.line_num(), stepwise.line_num());
}

#[test]
fn many_lines_are_counted_up_to_the_limit() {
    let mut text = String::new();
    for _ in 0..65534 {
        text.push('\n');
    }
    text.push_str("}");
    assert_eq!(
        failure(&text),
        ECnfLoaderError::IllegalRightMidParen(65535, "}".to_string())
    );
}

#[test]
fn entries_and_mapping_hold_the_same_pairs() {
    let mut parser = ECnfParser::new();
    parser
        .load("A: \"1\"\nS: {\nA: \"2\"\nB:\nA: \"3\"\n}\nA:\nC: \"\"")
        .unwrap();
    let listed = parser.entries();
    let map = parser.build_ecnf();
    assert_eq!(listed.len(), 4);
    assert_eq!(map.len(), 4);
    for (path, value) in &listed {
        assert_eq!(map.get(path), Some(value));
    }
    assert_eq!(
        map,
        mapping(&[("A", None), ("S.A", Some("3")), ("S.B", None), ("C", Some(""))])
    );
}

#[test]
fn dotted_key_is_no_key() {
    assert_eq!(
        failure("S.K: \"v\""),
        ECnfLoaderError::UnknownSeparator(1, "S.K: \"v\"".to_string(), '.')
    );
}
