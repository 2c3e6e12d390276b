use glowing_spork::text::{
    chars_of, count_occurrences, find_from, i64_to_decimal, join_with, parse_i32,
    parse_u32_in_radix, replace, split_on_any, str_is_blank, strip_prefix, to_ascii_lowercase,
    trim, trim_char, usize_to_decimal,
};

#[test]
fn trim_removes_unicode_whitespace_at_both_ends() {
    assert_eq!(trim("  \t hello world \n"), "hello world");
    assert_eq!(trim("\u{3000}\u{00A0}x\u{2028}"), "x");
    assert_eq!(trim("   "), "");
    assert_eq!(trim(""), "");
    assert_eq!(trim("a b"), "a b");
}

#[test]
fn blank_means_whitespace_only() {
    assert!(str_is_blank(" \t\n"));
    assert!(str_is_blank(""));
    assert!(!str_is_blank(" x "));
}

#[test]
fn lowercase_touches_ascii_letters_only() {
    assert_eq!(to_ascii_lowercase("BAN_Edited Ä"), "ban_edited Ä");
}

#[test]
fn replace_is_left_to_right_and_non_overlapping() {
    assert_eq!(replace("aaa", "aa", "b"), "ba");
    assert_eq!(replace("{id}-{id}", "{id}", "7"), "7-7");
    assert_eq!(replace("none here", "{id}", "7"), "none here");
    assert_eq!(replace("a\\nb", "\\n", "\n"), "a\nb");
}

#[test]
fn split_keeps_empty_pieces() {
    let seps = vec![',', ' '];
    assert_eq!(split_on_any("a,,b c", &seps), vec!["a", "", "b", "c"]);
    assert_eq!(split_on_any("", &seps), vec![""]);
    assert_eq!(split_on_any(",", &seps), vec!["", ""]);
}

#[test]
fn join_puts_separator_between_pieces() {
    let pieces = vec!["a".to_owned(), "b".to_owned(), "c".to_owned()];
    assert_eq!(join_with(&pieces, ", "), "a, b, c");
    assert_eq!(join_with(&Vec::new(), ", "), "");
}

#[test]
fn decimal_text_of_integers() {
    assert_eq!(i64_to_decimal(0), "0");
    assert_eq!(i64_to_decimal(-42), "-42");
    assert_eq!(i64_to_decimal(i64::MIN), "-9223372036854775808");
    assert_eq!(i64_to_decimal(i64::MAX), "9223372036854775807");
    assert_eq!(usize_to_decimal(1234567), "1234567");
}

#[test]
fn unsigned_parsing_follows_from_str_radix() {
    assert_eq!(parse_u32_in_radix("992D22", 16), Some(0x992D22));
    assert_eq!(parse_u32_in_radix("ff", 16), Some(255));
    assert_eq!(parse_u32_in_radix("+10", 10), Some(10));
    assert_eq!(parse_u32_in_radix("+", 10), None);
    assert_eq!(parse_u32_in_radix("", 10), None);
    assert_eq!(parse_u32_in_radix("-1", 10), None);
    assert_eq!(parse_u32_in_radix("4294967295", 10), Some(u32::MAX));
    assert_eq!(parse_u32_in_radix("4294967296", 10), None);
    assert_eq!(parse_u32_in_radix("12g", 16), None);
    assert_eq!(parse_u32_in_radix("99999999999999999999x", 10), None);
}

#[test]
fn signed_parsing_follows_str_parse() {
    assert_eq!(parse_i32("42"), Some(42));
    assert_eq!(parse_i32("-2147483648"), Some(i32::MIN));
    assert_eq!(parse_i32("2147483647"), Some(i32::MAX));
    assert_eq!(parse_i32("2147483648"), None);
    assert_eq!(parse_i32("+7"), Some(7));
    assert_eq!(parse_i32("-"), None);
    assert_eq!(parse_i32(" 7"), None);
    assert_eq!(parse_i32(""), None);
    for s in ["0", "-0", "123", "-99", "+2147483647", "x1", "1x"] {
        assert_eq!(parse_i32(s), s.parse::<i32>().ok(), "{s}");
    }
}

#[test]
fn prefix_and_search_helpers() {
    assert_eq!(strip_prefix("#abc", "#"), Some("abc"));
    assert_eq!(strip_prefix("abc", "#"), None);
    assert_eq!(trim_char("\"\"bans\"", '"'), "bans");
    let v = chars_of("a->b->c");
    let arrow = chars_of("->");
    assert_eq!(count_occurrences(&v, &arrow), 2);
    assert_eq!(find_from(&v, &arrow, 0), Some(1));
    assert_eq!(find_from(&v, &arrow, 2), Some(4));
    assert_eq!(find_from(&v, &arrow, 5), None);
}
