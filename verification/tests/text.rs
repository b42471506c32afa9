use herdr_share::text::{
    char_of_digit, chars_of, join2, join3, find_char, is_white_space, parse_number, same_text,
    split_once, string_of, strip_prefix, to_decimal, trim, value_of_digit,
};

#[test]
fn white_space_is_that_of_unicode() {
    for n in 0..=0x10FFFFu32 {
        if let Some(c) = char::from_u32(n) {
            assert_eq!(is_white_space(c), c.is_whitespace(), "U+{:04X}", n);
        }
    }
}

#[test]
fn trimming_takes_white_space_from_both_ends() {
    assert_eq!(trim("  CODE abc \r\n"), "CODE abc");
    assert_eq!(trim("x"), "x");
    assert_eq!(trim(""), "");
    assert_eq!(trim(" \t\n"), "");
    assert_eq!(trim("\u{3000}a b\u{a0}"), "a b");
    assert_eq!(trim("\u{e9}t\u{e9}"), "\u{e9}t\u{e9}");
}

#[test]
fn trimming_is_idempotent() {
    for s in ["", " ", " a ", "a", "\n a b \n", "\u{2003}x\u{2003}"] {
        assert_eq!(trim(trim(s)), trim(s));
        assert_eq!(trim(s), s.trim());
    }
}

#[test]
fn prefixes_are_stripped_or_not_found() {
    assert_eq!(strip_prefix("CODE abc", "CODE "), Some("abc"));
    assert_eq!(strip_prefix("CODE", "CODE "), None);
    assert_eq!(strip_prefix("code abc", "CODE "), None);
    assert_eq!(strip_prefix("abc", ""), Some("abc"));
    assert_eq!(strip_prefix("", "a"), None);
    assert_eq!(strip_prefix("\u{2014}x", "\u{2014}"), Some("x"));
}

#[test]
fn strings_split_at_the_first_separator() {
    assert_eq!(split_once("12 herdr join a", ' '), Some(("12", "herdr join a")));
    assert_eq!(split_once("12", ' '), None);
    assert_eq!(split_once(" x", ' '), Some(("", "x")));
    assert_eq!(split_once("x ", ' '), Some(("x", "")));
}

#[test]
fn characters_are_found_from_a_position_on() {
    let chars = chars_of("a b c");
    assert_eq!(find_char(&chars, 0, ' '), 1);
    assert_eq!(find_char(&chars, 2, ' '), 3);
    assert_eq!(find_char(&chars, 0, 'z'), 5);
    assert_eq!(string_of(&chars), "a b c");
}

#[test]
fn numbers_are_read_as_the_standard_library_reads_them() {
    for s in [
        "0", "7", "4002", "+5", "+", "-1", "", " 1", "1 ", "65535", "65536", "00012", "1_000",
        "99999999999999999999", "1a", "++1", "\u{0661}",
    ] {
        assert_eq!(parse_number(s, 65535), s.parse::<u16>().ok().map(u64::from), "{:?}", s);
        assert_eq!(parse_number(s, 4294967295), s.parse::<u32>().ok().map(u64::from), "{:?}", s);
        assert_eq!(parse_number(s, u64::MAX), s.parse::<u64>().ok(), "{:?}", s);
    }
    assert_eq!(parse_number("5", 3), None);
    assert_eq!(parse_number("3", 3), Some(3));
    assert_eq!(parse_number("18446744073709551615", u64::MAX), Some(u64::MAX));
    assert_eq!(parse_number("18446744073709551616", u64::MAX), None);
}

#[test]
fn decimal_notation_reads_back() {
    for n in [0, 1, 9, 10, 11, 99, 100, 4002, 4294967295, u64::MAX] {
        assert_eq!(to_decimal(n), n.to_string());
        assert_eq!(parse_number(&to_decimal(n), u64::MAX), Some(n));
    }
}

#[test]
fn digits_have_values() {
    assert_eq!(char_of_digit(0), '0');
    assert_eq!(char_of_digit(9), '9');
    assert_eq!(value_of_digit('0'), Some(0));
    assert_eq!(value_of_digit('9'), Some(9));
    assert_eq!(value_of_digit('a'), None);
    assert_eq!(value_of_digit('/'), None);
    assert_eq!(value_of_digit(':'), None);
}

#[test]
fn strings_are_joined_and_compared() {
    assert_eq!(join2("ab", "cd"), "abcd");
    assert_eq!(join3("ab", "", "cd"), "abcd");
    assert!(same_text("", ""));
    assert!(same_text("abc", "abc"));
    assert!(!same_text("abc", "abd"));
    assert!(!same_text("abc", "ab"));
}
