use typed_lua::name_resolution::literal::{hex_int, string_remove_quotes, unescape_string, EscapeError};

fn chars(s: &str) -> Vec<char> {
    s.chars().collect()
}

#[test]
fn hex_int_reads_hex_digits() {
    assert_eq!(hex_int(&chars("1F")), Some(31));
    assert_eq!(hex_int(&chars("ff")), Some(255));
    assert_eq!(hex_int(&chars("")), Some(0));
}

#[test]
fn hex_int_wraps_around() {
    assert_eq!(hex_int(&chars("10000000000000001")), Some(1));
    assert_eq!(hex_int(&chars("FFFFFFFFFFFFFFFF")), Some(u64::MAX));
}

#[test]
fn hex_int_rejects_other_characters() {
    assert_eq!(hex_int(&chars("1g")), None);
    assert_eq!(hex_int(&chars("0x1")), None);
}

#[test]
fn quotes_are_removed() {
    let s = chars("'abc'");
    assert_eq!(string_remove_quotes(&s), &chars("abc")[..]);
    let s = chars("\"a'b\"");
    assert_eq!(string_remove_quotes(&s), &chars("a'b")[..]);
    let s = chars("[==[x]]y]==]");
    assert_eq!(string_remove_quotes(&s), &chars("x]]y")[..]);
    let s = chars("[[]]");
    assert_eq!(string_remove_quotes(&s), &chars("")[..]);
}

#[test]
fn plain_text_is_its_utf8() {
    assert_eq!(unescape_string(&chars("héllo")).unwrap(), "héllo".as_bytes().to_vec());
}

#[test]
fn simple_escapes() {
    assert_eq!(
        unescape_string(&chars("\\a\\b\\f\\n\\r\\t\\v\\\\\\\"\\'")).unwrap(),
        vec![7, 8, 12, 10, 13, 9, 11, b'\\', b'"', b'\'']
    );
}

#[test]
fn escaped_newline_is_a_newline() {
    assert_eq!(unescape_string(&chars("a\\\nb")).unwrap(), b"a\nb".to_vec());
}

#[test]
fn z_escape_skips_whitespace() {
    assert_eq!(unescape_string(&chars("a\\z  \n\t b")).unwrap(), b"ab".to_vec());
}

#[test]
fn hex_escapes() {
    assert_eq!(unescape_string(&chars("\\x41\\xff")).unwrap(), vec![0x41, 0xff]);
    assert_eq!(unescape_string(&chars("\\x4")), Err(EscapeError::EofInHexEscape));
    assert_eq!(unescape_string(&chars("\\x4g")), Err(EscapeError::InvalidHexDigit));
}

#[test]
fn decimal_escapes() {
    assert_eq!(unescape_string(&chars("\\65\\0\\1234")).unwrap(), vec![65, 0, 123, b'4']);
    assert_eq!(unescape_string(&chars("\\300")), Err(EscapeError::InvalidDecimalEscape));
}

#[test]
fn unicode_escape_reads_its_digits_in_decimal() {
    assert_eq!(unescape_string(&chars("\\u{65}")).unwrap(), b"A".to_vec());
    assert_eq!(unescape_string(&chars("\\u{233}")).unwrap(), vec![0xC3, 0xA9]);
    assert_eq!(unescape_string(&chars("\\u{e9}")), Err(EscapeError::UnicodeInvalidNumber));
}

#[test]
fn unicode_escape_uses_legacy_long_forms() {
    // 2^21 needs the five byte form of the early UTF-8 design
    assert_eq!(
        unescape_string(&chars("\\u{2097152}")).unwrap(),
        vec![0xF8, 0x88, 0x80, 0x80, 0x80]
    );
    assert_eq!(unescape_string(&chars("\\u{2147483648}")), Err(EscapeError::UnicodeTooLarge));
    assert_eq!(unescape_string(&chars("\\u{4294967296}")), Err(EscapeError::UnicodeInvalidNumber));
}

#[test]
fn unicode_escape_needs_braces() {
    assert_eq!(unescape_string(&chars("\\u65")), Err(EscapeError::UnicodeMissingOpen));
    assert_eq!(unescape_string(&chars("\\u{65")), Err(EscapeError::UnicodeMissingClose));
}

#[test]
fn bad_escapes_are_errors() {
    assert_eq!(unescape_string(&chars("a\\")), Err(EscapeError::EofInEscape));
    assert_eq!(unescape_string(&chars("\\q")), Err(EscapeError::UnknownEscape('q')));
}
