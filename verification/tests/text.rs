use bpfjailer::text::{
    any_is, contains, join, lines, pad, parse_u32, repeat, split, split_whitespace, starts_with,
    to_decimal, to_hexadecimal, to_signed_decimal, trim,
};

#[test]
fn splitting_agrees_with_std() {
    for s in ["", ":", "a", "a:b", "::", "0::/a:b", "x:y:", "ä:ö"] {
        let expected: Vec<String> = s.split(':').map(|p| p.to_string()).collect();
        assert_eq!(split(s, ':'), expected);
    }
}

#[test]
fn words_agree_with_std() {
    for s in ["", " ", "a", " a  b\t\nc ", "\u{3000}x\u{a0}y\u{2003}"] {
        let expected: Vec<String> = s.split_whitespace().map(|p| p.to_string()).collect();
        assert_eq!(split_whitespace(s), expected);
    }
}

#[test]
fn lines_agree_with_std() {
    for s in ["", "\n", "a", "a\n", "a\r\nb", "a\rb\n\n", "a\r", "\r\n\r"] {
        let expected: Vec<String> = s.lines().map(|p| p.to_string()).collect();
        assert_eq!(lines(s), expected);
    }
}

#[test]
fn trimming_agrees_with_std() {
    for s in ["", "  ", "a", " a b ", "\r\n x\t", "\u{85}y\u{2028}"] {
        assert_eq!(trim(s), s.trim());
    }
}

#[test]
fn searching_agrees_with_std() {
    for s in ["", "a", "/sbin/nologin", "/bin/false", "falsefalse", "aab"] {
        for p in ["", "nologin", "/false", "aab", "ab", "b"] {
            assert_eq!(contains(s, p), s.contains(p));
            assert_eq!(starts_with(s, p), s.starts_with(p));
        }
    }
}

#[test]
fn parsing_agrees_with_std() {
    for s in [
        "", "+", "-1", "-0", "0", "007", "+12", "++1", "1000", "4294967295", "4294967296",
        "99999999999999999999", "1 ", "12a", "１",
    ] {
        assert_eq!(parse_u32(s), s.parse::<u32>().ok());
    }
}

#[test]
fn numbers_agree_with_std() {
    for n in [0u64, 9, 10, 255, 256, 65535, 1234567890, u64::MAX] {
        assert_eq!(to_decimal(n), format!("{}", n));
        assert_eq!(to_hexadecimal(n), format!("{:x}", n));
    }
    for n in [0i32, -1, 17, i32::MIN, i32::MAX] {
        assert_eq!(to_signed_decimal(n), format!("{}", n));
    }
}

#[test]
fn filling_up_agrees_with_std() {
    for s in ["", "ab", "abcdefghij", "äöü"] {
        assert_eq!(pad(s, 6), format!("{:<6}", s));
    }
    assert_eq!(repeat('=', 4), "====");
    assert_eq!(repeat('=', 0), "");
}

#[test]
fn joining_agrees_with_std() {
    let none: Vec<String> = Vec::new();
    assert_eq!(join(&none, ", "), "");
    let some = vec!["a".to_string(), "".to_string(), "c".to_string()];
    assert_eq!(join(&some, ", "), some.join(", "));
    assert!(any_is(&some, "c"));
    assert!(!any_is(&some, "d"));
}
