use rustyproxy::text::{chars_of, decimal_string, parse_usize, replace_str, str_contains, string_of, trim_end_range};

#[test]
fn decimal_rendering() {
    assert_eq!(decimal_string(0), "0");
    assert_eq!(decimal_string(7), "7");
    assert_eq!(decimal_string(1234567890), "1234567890");
    assert_eq!(decimal_string(usize::MAX), usize::MAX.to_string());
}

#[test]
fn parsing_numbers() {
    assert_eq!(parse_usize("8443"), Some(8443));
    assert_eq!(parse_usize("+5"), Some(5));
    assert_eq!(parse_usize("007"), Some(7));
    assert_eq!(parse_usize(""), None);
    assert_eq!(parse_usize("+"), None);
    assert_eq!(parse_usize("-1"), None);
    assert_eq!(parse_usize("12a"), None);
    assert_eq!(parse_usize(&usize::MAX.to_string()), Some(usize::MAX));
    assert_eq!(parse_usize("99999999999999999999999"), None);
}

#[test]
fn replacing_text() {
    assert_eq!(replace_str("a-b-c", "-", "+="), "a+=b+=c");
    assert_eq!(replace_str("aaa", "aa", "b"), "ba");
    assert_eq!(replace_str("xyz", "q", "r"), "xyz");
    assert_eq!(replace_str("", "q", "r"), "");
    assert_eq!(replace_str("é$[PAYLOAD]$é", "$[PAYLOAD]$", "ü"), "éüé");
}

#[test]
fn containment() {
    assert!(str_contains("hello", "ell"));
    assert!(str_contains("hello", ""));
    assert!(!str_contains("hello", "hex"));
    assert!(!str_contains("", "a"));
}

#[test]
fn characters_and_trimming() {
    let v = chars_of("añb  \t\r");
    assert_eq!(v.len(), 7);
    assert_eq!(string_of(&v, 1, 3), "ñb");
    assert_eq!(trim_end_range(&v, 0, v.len()), "añb");
    assert_eq!(trim_end_range(&v, 3, v.len()), "");
    let w = chars_of("x\u{3000}");
    assert_eq!(trim_end_range(&w, 0, w.len()), "x");
}
