use mini_http::decimal::{decimal_string, parse_usize};
use mini_http::lines::{split_lines, split_words};
use mini_http::text::{
    char_is_whitespace, find_char, same_text, skip_blanks, skip_word, starts_with, strip_prefix,
    to_chars, trim, truncate_utf8,
};

fn strings(items: &[&str]) -> Vec<String> {
    items.iter().map(|s| s.to_string()).collect()
}

#[test]
fn to_chars_keeps_every_character() {
    assert_eq!(to_chars("héllo"), vec!['h', 'é', 'l', 'l', 'o']);
    assert_eq!(to_chars(""), Vec::<char>::new());
}

#[test]
fn whitespace_is_the_unicode_class() {
    for c in [' ', '\t', '\n', '\r', '\u{0b}', '\u{0c}', '\u{85}', '\u{a0}', '\u{1680}', '\u{2003}', '\u{2028}', '\u{2029}', '\u{202f}', '\u{205f}', '\u{3000}'] {
        assert!(char_is_whitespace(c), "{:?}", c);
    }
    for c in ['a', '0', '/', '\u{1c}', '\u{200b}', '\u{feff}', 'é'] {
        assert!(!char_is_whitespace(c), "{:?}", c);
    }
}

#[test]
fn whitespace_agrees_with_std_on_every_character() {
    let mut u: u32 = 0;
    while u <= 0x10ffff {
        if let Some(c) = char::from_u32(u) {
            assert_eq!(char_is_whitespace(c), c.is_whitespace(), "U+{:04X}", u);
        }
        u += 1;
    }
}

#[test]
fn scanning_stops_where_it_should() {
    let cs = to_chars("  ab: c");
    assert_eq!(skip_blanks(&cs, 0), 2);
    assert_eq!(skip_blanks(&cs, 2), 2);
    assert_eq!(skip_word(&cs, 2), 5);
    assert_eq!(skip_word(&cs, 6), 7);
    assert_eq!(find_char(&cs, 0, ':'), 4);
    assert_eq!(find_char(&cs, 5, ':'), 7);
    assert_eq!(find_char(&cs, 7, ':'), 7);
}

#[test]
fn lines_end_at_line_feeds() {
    assert_eq!(split_lines("a\nb\nc"), strings(&["a", "b", "c"]));
    assert_eq!(split_lines("a\r\nb\r\n"), strings(&["a", "b"]));
    assert_eq!(split_lines("a\n\nb"), strings(&["a", "", "b"]));
}

#[test]
fn lines_of_edge_cases() {
    assert_eq!(split_lines(""), Vec::<String>::new());
    assert_eq!(split_lines("\n"), strings(&[""]));
    assert_eq!(split_lines("\r\n"), strings(&[""]));
    assert_eq!(split_lines("a"), strings(&["a"]));
    assert_eq!(split_lines("a\n"), strings(&["a"]));
}

#[test]
fn only_one_carriage_return_before_a_line_feed_is_dropped() {
    assert_eq!(split_lines("a\r\r\nb"), strings(&["a\r", "b"]));
    assert_eq!(split_lines("a\rb\n"), strings(&["a\rb"]));
    assert_eq!(split_lines("a\r\nb\r"), strings(&["a", "b\r"]));
}

#[test]
fn lines_agree_with_std() {
    for text in ["", "\n", "a", "a\n", "a\r\n\r\nb", "\r", "a\r", "x\n\ny\r\r\nz\r", "\n\n\n"] {
        let expected: Vec<String> = text.lines().map(|l| l.to_string()).collect();
        assert_eq!(split_lines(text), expected, "{:?}", text);
    }
}

#[test]
fn words_are_runs_without_whitespace() {
    assert_eq!(split_words("GET / HTTP/1.1"), strings(&["GET", "/", "HTTP/1.1"]));
    assert_eq!(split_words("  a \t b\u{a0}c  "), strings(&["a", "b", "c"]));
    assert_eq!(split_words(""), Vec::<String>::new());
    assert_eq!(split_words(" \t "), Vec::<String>::new());
    assert_eq!(split_words("one"), strings(&["one"]));
}

#[test]
fn words_agree_with_std() {
    for text in ["", " ", "a", " a", "a ", "a  b", "\u{2003}x\u{3000}y z\r"] {
        let expected: Vec<String> = text.split_whitespace().map(|w| w.to_string()).collect();
        assert_eq!(split_words(text), expected, "{:?}", text);
    }
}

#[test]
fn trim_removes_whitespace_at_both_ends_only() {
    assert_eq!(trim("  a b \t"), "a b");
    assert_eq!(trim("a"), "a");
    assert_eq!(trim(""), "");
    assert_eq!(trim(" \r\n "), "");
    assert_eq!(trim("\u{a0}x\u{2028}"), "x");
}

#[test]
fn prefix_tests_and_removal() {
    assert!(starts_with("/echo/abc", "/echo/"));
    assert!(starts_with("/echo/", "/echo/"));
    assert!(starts_with("abc", ""));
    assert!(!starts_with("/echo", "/echo/"));
    assert!(!starts_with("/Echo/abc", "/echo/"));
    assert_eq!(strip_prefix("/echo/abc", "/echo/"), "abc");
    assert_eq!(strip_prefix("/other", "/echo/"), "/other");
    assert_eq!(strip_prefix("/echo/", "/echo/"), "");
}

#[test]
fn only_the_leading_prefix_is_removed() {
    assert_eq!(strip_prefix("/echo/a/echo/b", "/echo/"), "a/echo/b");
    assert_eq!(strip_prefix("x/echo/b", "/echo/"), "x/echo/b");
}

#[test]
fn same_text_compares_whole_texts() {
    assert!(same_text("GET", "GET"));
    assert!(same_text("", ""));
    assert!(!same_text("GET", "GETS"));
    assert!(!same_text("GETS", "GET"));
    assert!(!same_text("GET", "get"));
}

#[test]
fn truncation_counts_bytes_and_keeps_whole_characters() {
    assert_eq!(truncate_utf8("hello", 3), "hel");
    assert_eq!(truncate_utf8("hello", 5), "hello");
    assert_eq!(truncate_utf8("hello", 9), "hello");
    assert_eq!(truncate_utf8("hello", 0), "");
    assert_eq!(truncate_utf8("héllo", 1), "h");
    assert_eq!(truncate_utf8("héllo", 2), "h");
    assert_eq!(truncate_utf8("héllo", 3), "hé");
    assert_eq!(truncate_utf8("\u{1f600}x", 3), "");
    assert_eq!(truncate_utf8("\u{1f600}x", 4), "\u{1f600}");
}

#[test]
fn parse_usize_reads_plain_numbers() {
    assert_eq!(parse_usize("0"), Some(0));
    assert_eq!(parse_usize("42"), Some(42));
    assert_eq!(parse_usize("007"), Some(7));
    assert_eq!(parse_usize("+15"), Some(15));
    assert_eq!(parse_usize(&usize::MAX.to_string()), Some(usize::MAX));
}

#[test]
fn parse_usize_rejects_everything_else() {
    assert_eq!(parse_usize(""), None);
    assert_eq!(parse_usize("+"), None);
    assert_eq!(parse_usize("-1"), None);
    assert_eq!(parse_usize("++1"), None);
    assert_eq!(parse_usize("12a"), None);
    assert_eq!(parse_usize(" 12"), None);
    assert_eq!(parse_usize("1 2"), None);
    assert_eq!(parse_usize("\u{661}"), None);
    assert_eq!(parse_usize("18446744073709551616"), None);
    assert_eq!(parse_usize("99999999999999999999999999"), None);
}

#[test]
fn parse_usize_agrees_with_std() {
    for text in ["", "+", "0", "+0", "10", "18446744073709551615", "18446744073709551616", "1_0", "0x10", "٣"] {
        assert_eq!(parse_usize(text), text.parse::<usize>().ok(), "{:?}", text);
    }
}

#[test]
fn decimal_string_writes_base_ten() {
    assert_eq!(decimal_string(0), "0");
    assert_eq!(decimal_string(7), "7");
    assert_eq!(decimal_string(10), "10");
    assert_eq!(decimal_string(404), "404");
    assert_eq!(decimal_string(1234567890), "1234567890");
    assert_eq!(decimal_string(usize::MAX), usize::MAX.to_string());
}

#[test]
fn what_is_written_is_read_back() {
    for n in [0usize, 1, 9, 10, 99, 100, 255, 256, 65535, usize::MAX] {
        assert_eq!(parse_usize(&decimal_string(n)), Some(n));
    }
}
