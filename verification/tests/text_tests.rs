use food_inspections::text::{
    append_decimal, append_signed_decimal, number_or_zero, parse_i32, text_or_empty, trim,
    white_space,
};

#[test]
fn trim_removes_surrounding_white_space() {
    assert_eq!(trim("  03/15/2016 \t"), "03/15/2016");
    assert_eq!(trim("\u{3000}x y\u{85}"), "x y");
    assert_eq!(trim("abc"), "abc");
}

#[test]
fn trim_of_only_white_space_is_empty() {
    assert_eq!(trim(""), "");
    assert_eq!(trim(" \n\r\t "), "");
}

#[test]
fn trim_agrees_with_std() {
    for s in ["", " a", "a ", "\u{2028}b\u{a0}", "c\u{200b}", "  d  e  "] {
        assert_eq!(trim(s), s.trim());
    }
}

#[test]
fn white_space_is_the_unicode_property() {
    for c in ['\t', '\n', '\u{b}', '\u{c}', '\r', ' ', '\u{85}', '\u{a0}', '\u{1680}', '\u{2000}', '\u{200a}', '\u{2028}', '\u{2029}', '\u{202f}', '\u{205f}', '\u{3000}'] {
        assert!(white_space(c));
        assert!(c.is_whitespace());
    }
    for c in ['a', '0', '\u{200b}', '\u{180e}', '\u{feff}'] {
        assert!(!white_space(c));
        assert_eq!(c.is_whitespace(), false);
    }
}

#[test]
fn parse_i32_reads_decimal_numbers() {
    assert_eq!(parse_i32("42"), Some(42));
    assert_eq!(parse_i32("+7"), Some(7));
    assert_eq!(parse_i32("-15"), Some(-15));
    assert_eq!(parse_i32("007"), Some(7));
    assert_eq!(parse_i32("2147483647"), Some(i32::MAX));
    assert_eq!(parse_i32("-2147483648"), Some(i32::MIN));
}

#[test]
fn parse_i32_rejects_what_std_rejects() {
    for s in ["", "+", "-", " 1", "1 ", "1.5", "2147483648", "-2147483649", "99999999999999999999", "+-1", "abc", "1e3"] {
        assert_eq!(parse_i32(s), None);
        assert!(s.parse::<i32>().is_err());
    }
}

#[test]
fn number_or_zero_defaults_to_zero() {
    assert_eq!(number_or_zero(&Some("25".to_string())), 25);
    assert_eq!(number_or_zero(&Some("".to_string())), 0);
    assert_eq!(number_or_zero(&Some("ten".to_string())), 0);
    assert_eq!(number_or_zero(&None), 0);
}

#[test]
fn text_or_empty_keeps_text() {
    assert_eq!(text_or_empty(&Some("Cafe".to_string())), "Cafe");
    assert_eq!(text_or_empty(&None), "");
}

#[test]
fn decimals_are_written_like_format() {
    let mut s = String::from("x=");
    append_decimal(&mut s, 0);
    assert_eq!(s, "x=0");
    let mut s = String::new();
    append_decimal(&mut s, 1234567890);
    assert_eq!(s, "1234567890");
    for i in [0i64, 7, -7, 2017, -2147483648, i64::MIN, i64::MAX] {
        let mut s = String::new();
        append_signed_decimal(&mut s, i);
        assert_eq!(s, format!("{}", i));
    }
}
