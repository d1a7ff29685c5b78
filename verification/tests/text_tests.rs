use zeta9::text::{
    chars_of, decimal_string, fmt_time, is_whitespace_char, parse_bool, parse_u16, parse_u64, str_eq,
    string_of, trim_chars,
};

fn parse(s: &str) -> Option<u64> {
    parse_u64(&chars_of(s))
}

fn trimmed(s: &str) -> String {
    string_of(&trim_chars(&chars_of(s)))
}

#[test]
fn fmt_time_gives_hours_minutes_seconds() {
    assert_eq!(fmt_time(0), "00:00:00");
    assert_eq!(fmt_time(3661), "01:01:01");
    assert_eq!(fmt_time(86399), "23:59:59");
}

#[test]
fn fmt_time_keeps_the_time_of_day_only() {
    assert_eq!(fmt_time(86400), "00:00:00");
    assert_eq!(fmt_time(1_700_000_000), "22:13:20");
    assert_eq!(fmt_time(u64::MAX), "07:00:15");
}

#[test]
fn decimal_string_matches_to_string() {
    assert_eq!(decimal_string(0), "0");
    assert_eq!(decimal_string(42), "42");
    assert_eq!(decimal_string(u64::MAX), u64::MAX.to_string());
}

#[test]
fn parse_u64_reads_digits() {
    assert_eq!(parse("0"), Some(0));
    assert_eq!(parse("1234"), Some(1234));
    assert_eq!(parse("+5"), Some(5));
    assert_eq!(parse("007"), Some(7));
    assert_eq!(parse("18446744073709551615"), Some(u64::MAX));
}

#[test]
fn parse_u64_refuses_what_str_parse_refuses() {
    for s in ["", "+", "-1", "12a", " 1", "18446744073709551616", "1_000"] {
        assert_eq!(parse(s), None, "{}", s);
        assert!(s.parse::<u64>().is_err());
    }
}

#[test]
fn parse_u16_bounds() {
    assert_eq!(parse_u16(&chars_of("65535")), Some(65535));
    assert_eq!(parse_u16(&chars_of("65536")), None);
    assert_eq!(parse_u16(&chars_of("+80")), Some(80));
}

#[test]
fn parse_bool_only_lower_case_words() {
    assert_eq!(parse_bool(&chars_of("true")), Some(true));
    assert_eq!(parse_bool(&chars_of("false")), Some(false));
    assert_eq!(parse_bool(&chars_of("True")), None);
    assert_eq!(parse_bool(&chars_of("1")), None);
}

#[test]
fn trim_removes_unicode_white_space_at_both_ends() {
    assert_eq!(trimmed("  hello world \n"), "hello world");
    assert_eq!(trimmed("\t\u{3000}x\u{2029}"), "x");
    assert_eq!(trimmed("   "), "");
    assert_eq!(trimmed(""), "");
    assert_eq!(trimmed("a b"), "a b");
}

#[test]
fn whitespace_agrees_with_char_is_whitespace() {
    for u in 0u32..0x3100 {
        if let Some(c) = char::from_u32(u) {
            assert_eq!(is_whitespace_char(c), c.is_whitespace(), "{:x}", u);
        }
    }
}

#[test]
fn str_eq_compares_text() {
    assert!(str_eq("abc", "abc"));
    assert!(!str_eq("abc", "abd"));
    assert!(!str_eq("abc", "ab"));
    assert!(str_eq("", ""));
}
