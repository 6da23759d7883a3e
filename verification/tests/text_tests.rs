//! Trimming, splitting, searching, numbers and order.

use one_slot::number::{decimal_text, parse_or, parse_unsigned};
use one_slot::offsets::{byte_len, utf8_width};
use one_slot::order::{stable_sort, text_before};
use one_slot::text;
use one_slot::worker::status::AccountInfo;

const SAMPLES: [&str; 12] = [
    "",
    " ",
    "a",
    "  a b\t",
    "\u{3000}wide\u{2003}",
    "line\r\nnext\n\nlast",
    "ends\r",
    "x,y,,z",
    ",",
    "aaaa",
    "gr\u{fc}n \u{1F600}",
    "\n",
];

#[test]
fn whitespace_is_what_unicode_says() {
    for n in 0..=0x10FFFFu32 {
        if let Some(c) = char::from_u32(n) {
            assert_eq!(text::is_whitespace(c), c.is_whitespace(), "{n:x}");
        }
    }
}

#[test]
fn trimming_agrees_with_std() {
    for s in SAMPLES {
        assert_eq!(text::trimmed(s), s.trim());
        assert_eq!(text::trimmed_start(s), s.trim_start());
        assert_eq!(text::without_trailing(s, 'a'), s.trim_end_matches('a'));
    }
}

#[test]
fn splitting_agrees_with_std() {
    for s in SAMPLES {
        let parts: Vec<String> = s.split(',').map(str::to_string).collect();
        assert_eq!(text::split_on(s, ','), parts);
        let lines: Vec<String> = s.lines().map(str::to_string).collect();
        assert_eq!(text::lines_of(&text::to_chars(s)), lines);
        assert_eq!(text::joined(&parts, 0, ','), s);
    }
}

#[test]
fn joining_starts_where_it_is_told() {
    let parts = vec!["a".to_string(), "b".to_string(), "c".to_string()];
    assert_eq!(text::joined(&parts, 1, '|'), "b|c");
    assert_eq!(text::joined(&parts, 3, '|'), "");
}

#[test]
fn searching_agrees_with_std() {
    for s in SAMPLES {
        for pattern in ["a", "aa", "\n", "xt", ","] {
            assert_eq!(text::has_text(s, pattern), s.contains(pattern));
            assert_eq!(text::begins_with(s, pattern), s.starts_with(pattern));
            assert_eq!(
                text::after_prefix(s, pattern),
                s.strip_prefix(pattern).map(str::to_string)
            );
            assert_eq!(text::replaced(s, pattern, "<>"), s.replace(pattern, "<>"));
        }
        assert_eq!(text::has_char(s, 'a'), s.contains('a'));
    }
}

#[test]
fn same_text_compares_texts() {
    assert!(text::same_text("gr\u{fc}n", "gr\u{fc}n"));
    assert!(!text::same_text("a", "b"));
}

#[test]
fn byte_lengths_agree_with_std() {
    for s in SAMPLES {
        assert_eq!(byte_len(s), s.len());
        for c in s.chars() {
            assert_eq!(utf8_width(c), c.len_utf8());
        }
    }
}

#[test]
fn numbers_parse_as_in_std() {
    for s in ["", "+", "0", "7", "+7", "-7", "007", "65535", "65536", "1a", " 1", "++1"] {
        assert_eq!(
            parse_unsigned(s, u16::MAX as u64),
            s.parse::<u16>().ok().map(u64::from),
            "{s:?}"
        );
    }
    assert_eq!(parse_unsigned("18446744073709551615", u64::MAX), Some(u64::MAX));
    assert_eq!(parse_unsigned("18446744073709551616", u64::MAX), None);
}

#[test]
fn default_stands_in_for_what_is_no_number() {
    assert_eq!(parse_or(Some("12"), 20, 5), 12);
    assert_eq!(parse_or(Some("21"), 20, 5), 5);
    assert_eq!(parse_or(Some("x"), 20, 5), 5);
    assert_eq!(parse_or(None, 20, 5), 5);
}

#[test]
fn decimal_reads_back() {
    for n in [0u64, 9, 10, 305, u64::MAX] {
        assert_eq!(decimal_text(n), n.to_string());
        assert_eq!(parse_unsigned(&decimal_text(n), u64::MAX), Some(n));
    }
}

#[test]
fn different_numbers_are_written_differently() {
    assert_ne!(decimal_text(10), decimal_text(100));
}

#[test]
fn texts_are_ordered_by_their_bytes() {
    for a in SAMPLES {
        for b in SAMPLES {
            assert_eq!(text_before(a, b), a < b);
        }
    }
}

fn info(label: &str, state: &str) -> AccountInfo {
    AccountInfo {
        index: 0,
        label: label.to_string(),
        email: String::new(),
        mobile: String::new(),
        state: state.to_string(),
        busy_for_seconds: None,
        active_count: 0,
        max_concurrent: 0,
        last_released_ms: 0,
        error_count: 0,
    }
}

#[test]
fn sorting_keeps_the_order_of_equals() {
    let sorted = stable_sort(vec![
        info("b", "1"),
        info("a", "2"),
        info("b", "3"),
        info("a", "4"),
        info("", "5"),
    ]);
    let got: Vec<(&str, &str)> =
        sorted.iter().map(|i| (i.label.as_str(), i.state.as_str())).collect();
    assert_eq!(got, vec![("", "5"), ("a", "2"), ("a", "4"), ("b", "1"), ("b", "3")]);
}
