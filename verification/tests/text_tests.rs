use xbase::text::{
    file_name, i32_to_string, parse_i32, split_lines, str_ends_with, str_eq, str_starts_with,
    u64_to_string,
};

#[test]
fn prefix_and_suffix_tests_match_rust() {
    assert!(str_starts_with("=== COMPILE App ===", "==="));
    assert!(!str_starts_with("== COMPILE", "==="));
    assert!(str_starts_with("abc", ""));
    assert!(str_ends_with("/src/a.swift", ".swift"));
    assert!(!str_ends_with("a.swift.bak", ".swift"));
    assert!(str_eq("same", "same"));
    assert!(!str_eq("same", "sane"));
}

#[test]
fn file_name_takes_the_last_component() {
    assert_eq!(file_name("/a/b/c.yml"), "c.yml");
    assert_eq!(file_name("plain"), "plain");
    assert_eq!(file_name("/trailing/"), "");
    assert_eq!(file_name(""), "");
}

#[test]
fn split_lines_matches_newline_separation() {
    assert_eq!(split_lines("a\nb"), vec!["a", "b"]);
    assert_eq!(split_lines("a\nb\n"), vec!["a", "b", ""]);
    assert_eq!(split_lines(""), vec![""]);
    assert_eq!(split_lines("\n"), vec!["", ""]);
}

#[test]
fn decimal_rendering_is_exact() {
    assert_eq!(u64_to_string(0), "0");
    assert_eq!(u64_to_string(90210), "90210");
    assert_eq!(i32_to_string(0), "0");
    assert_eq!(i32_to_string(-5), "-5");
    assert_eq!(i32_to_string(i32::MAX), "2147483647");
    assert_eq!(i32_to_string(i32::MIN), "-2147483648");
}

#[test]
fn parsing_accepts_exactly_in_range_decimals() {
    assert_eq!(parse_i32("0"), Some(0));
    assert_eq!(parse_i32("007"), Some(7));
    assert_eq!(parse_i32("2147483647"), Some(i32::MAX));
    assert_eq!(parse_i32("-2147483648"), Some(i32::MIN));
    assert_eq!(parse_i32("2147483648"), None);
    assert_eq!(parse_i32("-2147483649"), None);
    assert_eq!(parse_i32("99999999999999999999"), None);
    assert_eq!(parse_i32("12a"), None);
    assert_eq!(parse_i32(""), None);
    assert_eq!(parse_i32("-"), None);
}

#[test]
fn rendering_then_parsing_is_the_identity() {
    for n in [0, 1, -1, 42, -99, i32::MAX, i32::MIN] {
        assert_eq!(parse_i32(&i32_to_string(n)), Some(n));
    }
}
