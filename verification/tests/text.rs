use snowmelt::text::{
    chars_eq, chars_of, is_whitespace, parse_unsigned_exec, split_chars, split_ws, to_lower,
    trim_bounds, trimmed,
};

fn s(v: &[char]) -> String {
    v.iter().collect()
}

#[test]
fn whitespace_is_unicode_white_space() {
    for c in [' ', '\t', '\n', '\r', '\u{0b}', '\u{0c}', '\u{85}', '\u{a0}', '\u{2003}', '\u{3000}'] {
        assert!(is_whitespace(c), "{c:?}");
        assert_eq!(is_whitespace(c), c.is_whitespace());
    }
    for c in ['a', '0', '_', '\u{200b}', '\u{180e}'] {
        assert!(!is_whitespace(c), "{c:?}");
        assert_eq!(is_whitespace(c), c.is_whitespace());
    }
}

#[test]
fn split_keeps_empty_pieces() {
    let parts = split_chars(&chars_of("a--b-"), '-');
    let parts: Vec<String> = parts.iter().map(|p| s(p)).collect();
    assert_eq!(parts, vec!["a", "", "b", ""]);
    assert_eq!(split_chars(&chars_of(""), '-').len(), 1);
}

#[test]
fn trim_removes_both_ends() {
    let c = chars_of(" \t ab c \r\n");
    assert_eq!(s(&trimmed(&c)), "ab c");
    assert_eq!(trim_bounds(&c), (3, 7));
    assert_eq!(s(&trimmed(&chars_of("   "))), "");
}

#[test]
fn split_ws_and_lower() {
    let toks: Vec<String> = split_ws(&chars_of("  Ab\tC  d ")).iter().map(|t| s(t)).collect();
    assert_eq!(toks, vec!["Ab", "C", "d"]);
    assert_eq!(s(&to_lower(&chars_of("NoData_VALUE-Ä"))), "nodata_value-Ä");
    assert!(chars_eq(&chars_of("abc"), &chars_of("abc")));
    assert!(!chars_eq(&chars_of("abc"), &chars_of("abd")));
    assert!(!chars_eq(&chars_of("ab"), &chars_of("abc")));
}

#[test]
fn parse_unsigned_matches_std() {
    for (text, max) in [
        ("0", 255u64),
        ("255", 255),
        ("256", 255),
        ("+7", 255),
        ("+", 255),
        ("", 255),
        ("-1", 255),
        ("007", 255),
        ("1a", 255),
        ("4294967295", 4294967295),
        ("4294967296", 4294967295),
    ] {
        let expect = text.parse::<u64>().ok().filter(|v| *v <= max);
        assert_eq!(parse_unsigned_exec(&chars_of(text), max), expect, "{text}");
    }
}
