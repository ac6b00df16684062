use starchart::text::{
    chars_of, decimal_of, has, has_char, is_whitespace, join, join2, join3, parse_number, same,
    split_on, trim,
};

#[test]
fn text_is_compared_character_for_character() {
    assert!(same("batman", "batman"));
    assert!(!same("batman", "Batman"));
    assert!(!same("batman", "batma"));
    assert!(same("", ""));
    assert_eq!(chars_of("aäb"), vec!['a', 'ä', 'b']);
}

#[test]
fn trim_takes_white_space_from_both_ends() {
    assert_eq!(trim("  gitea \t\n"), "gitea");
    assert_eq!(trim("gitea"), "gitea");
    assert_eq!(trim(" a b "), "a b");
    assert_eq!(trim("   "), "");
    assert_eq!(trim(""), "");
    assert_eq!(trim("\u{3000}x\u{a0}"), "x");
    assert_eq!(trim("\u{200b}x"), "\u{200b}x");
    for c in ['\t', '\n', '\u{b}', '\u{c}', '\r', ' ', '\u{85}', '\u{a0}', '\u{1680}', '\u{2000}',
        '\u{200a}', '\u{2028}', '\u{2029}', '\u{202f}', '\u{205f}', '\u{3000}']
    {
        assert!(is_whitespace(c));
        assert!(c.is_whitespace());
    }
    for c in ['a', '0', '\u{200b}', '\u{feff}', '\u{1f}', '\u{e}'] {
        assert!(!is_whitespace(c));
        assert!(!c.is_whitespace());
    }
}

#[test]
fn has_finds_a_text_in_another() {
    assert!(has("UNIQUE constraint failed: starchart_forges.hostname", "starchart_forges.hostname"));
    assert!(!has("UNIQUE constraint failed: starchart_forges.hostnam", "starchart_forges.hostname"));
    assert!(has("abc", ""));
    assert!(has("", ""));
    assert!(!has("", "a"));
    assert!(has("aab", "ab"));
    assert!(has("abc", "abc"));
    assert!(!has("abc", "abcd"));
    assert!(has_char("a*b", '*'));
    assert!(!has_char("ab", '*'));
}

#[test]
fn split_keeps_empty_pieces() {
    assert_eq!(split_on("a,b,c", ','), vec!["a", "b", "c"]);
    assert_eq!(split_on("a,,c", ','), vec!["a", "", "c"]);
    assert_eq!(split_on(",a,", ','), vec!["", "a", ""]);
    assert_eq!(split_on("", ','), vec![""]);
    assert_eq!(split_on("abc", ','), vec!["abc"]);
}

#[test]
fn join_puts_the_separator_between() {
    let words = vec!["superman".to_string(), "aquaman".to_string(), "Batman".to_string()];
    assert_eq!(join(&words, " "), "superman aquaman Batman");
    assert_eq!(join(&vec!["one".to_string()], " "), "one");
    assert_eq!(join(&Vec::new(), " "), "");
    assert_eq!(join(&vec!["".to_string(), "".to_string()], "-"), "-");
    assert_eq!(join2("a", "b"), "ab");
    assert_eq!(join3("a", "", "c"), "ac");
}

#[test]
fn numbers_are_written_and_read_in_decimal() {
    assert_eq!(decimal_of(0), "0");
    assert_eq!(decimal_of(7), "7");
    assert_eq!(decimal_of(10), "10");
    assert_eq!(decimal_of(1650000000), "1650000000");
    assert_eq!(decimal_of(u64::MAX), "18446744073709551615");
    assert_eq!(parse_number("0"), Some(0));
    assert_eq!(parse_number("500"), Some(500));
    assert_eq!(parse_number("+500"), Some(500));
    assert_eq!(parse_number("007"), Some(7));
    assert_eq!(parse_number("18446744073709551615"), Some(u64::MAX));
    assert_eq!(parse_number("18446744073709551616"), None);
    assert_eq!(parse_number("99999999999999999999999"), None);
    assert_eq!(parse_number(""), None);
    assert_eq!(parse_number("+"), None);
    assert_eq!(parse_number("-1"), None);
    assert_eq!(parse_number("1 "), None);
    assert_eq!(parse_number("1a"), None);
    assert_eq!(parse_number("++1"), None);
    for n in [0u64, 9, 10, 99, 100, 12345, u64::MAX] {
        assert_eq!(parse_number(&decimal_of(n)), Some(n));
        assert_eq!(decimal_of(n), n.to_string());
    }
}
