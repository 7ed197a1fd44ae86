use dotecnf::error::{push_decimal, ECnfLoaderError};

#[test]
fn message_of_read_fail() {
    let e = ECnfLoaderError::ReadFail("stream did not contain valid UTF-8".to_string());
    assert_eq!(e.message(), "Read Fail: stream did not contain valid UTF-8");
    assert_eq!(e.line_num(), 0);
}

#[test]
fn message_of_fail_parse_key() {
    let e = ECnfLoaderError::FailParseKey(1, "_HOGE:\"vim style\"".to_string());
    assert_eq!(e.message(), "Fail parse key at line: \"_HOGE:\"vim style\"\" in 1");
    assert_eq!(e.line_num(), 1);
}

#[test]
fn message_of_fail_parse() {
    let e = ECnfLoaderError::FailParse(5, "DB".to_string());
    assert_eq!(e.message(), "Illegal End Line for prefix: \"DB\" in 5");
    assert_eq!(e.line_num(), 5);
}

#[test]
fn message_of_illegal_right_mid_paren() {
    let e = ECnfLoaderError::IllegalRightMidParen(12, "}".to_string());
    assert_eq!(e.message(), "Unknown end mid paren on line: \"}\" in 12");
    assert_eq!(e.line_num(), 12);
}

#[test]
fn message_of_unknown_separator() {
    let e = ECnfLoaderError::UnknownSeparator(300, "HOGE=\"x\"".to_string(), '=');
    assert_eq!(
        e.message(),
        "Unknown key-value separator: \"=\" on line: \"HOGE=\"x\"\" in 300"
    );
    assert_eq!(e.line_num(), 300);
}

#[test]
fn message_of_unknown_value() {
    let e = ECnfLoaderError::UnknownValue(65535, "HOGE:{}".to_string(), "{}".to_string());
    assert_eq!(e.message(), "Unknown value: \"{}\" of line: \"HOGE:{}\" in 65535");
    assert_eq!(e.line_num(), 65535);
}

#[test]
fn message_keeps_chars_of_several_bytes() {
    let e = ECnfLoaderError::UnknownSeparator(2, "K：\"日本\"".to_string(), '：');
    assert_eq!(
        e.message(),
        "Unknown key-value separator: \"：\" on line: \"K：\"日本\"\" in 2"
    );
}

#[test]
fn decimal_digits_of_every_line_number() {
    for n in 0..=u16::MAX {
        let mut s = String::from("in ");
        push_decimal(&mut s, n);
        assert_eq!(s, format!("in {}", n));
    }
}

#[test]
fn failures_compare_by_what_they_hold() {
    let a = ECnfLoaderError::FailParse(1, "A".to_string());
    assert_eq!(a, ECnfLoaderError::FailParse(1, "A".to_string()));
    assert_ne!(a, ECnfLoaderError::FailParse(2, "A".to_string()));
    assert_ne!(a, ECnfLoaderError::FailParse(1, "B".to_string()));
    assert_ne!(a, ECnfLoaderError::FailParseKey(1, "A".to_string()));
}
