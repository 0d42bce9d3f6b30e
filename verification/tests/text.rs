//! Text and time spans.

use fut::duration::{Duration, MAX_NANOS};
use fut::text::{
    chars_of, contains, decimal_of, has_control, is_control, is_longer_than_prefix, is_whitespace,
    position_of, printable_prefix, same_text, split_lines, string_of, to_lowercase, trim,
};

#[test]
fn character_classes_agree_with_the_standard_library() {
    for c in '\0'..=char::MAX {
        assert_eq!(is_control(c), c.is_control(), "{c:?}");
        assert_eq!(is_whitespace(c), c.is_whitespace(), "{c:?}");
        assert_eq!(to_lowercase(&[c])[0], c.to_ascii_lowercase(), "{c:?}");
    }
}

#[test]
fn lines_agree_with_the_standard_library() {
    for text in [
        "", "\n", "a", "a\n", "a\r\nb", "a\rb\n", "\r\n\r\n", "a\n\nb", "a\r", "a\n\r",
    ] {
        let lines: Vec<String> = split_lines(&chars_of(text))
            .iter()
            .map(|line| string_of(line))
            .collect();
        let expected: Vec<&str> = text.lines().collect();
        assert_eq!(lines, expected, "{text:?}");
    }
}

#[test]
fn trimming_agrees_with_the_standard_library() {
    for text in ["", " ", " a ", "\u{3000}a b\t", "a\u{a0}", "\u{200b}a"] {
        assert_eq!(string_of(&trim(&chars_of(text))), text.trim(), "{text:?}");
    }
}

#[test]
fn searching_agrees_with_the_standard_library() {
    for (text, pattern) in [
        ("", ""),
        ("abc", ""),
        ("abc", "bc"),
        ("aabaabaa", "aabaa"),
        ("abc", "abcd"),
        ("éab", "ab"),
    ] {
        let chars = chars_of(text);
        assert_eq!(contains(&chars, pattern), text.contains(pattern));
        let expected = text.find(pattern).map(|at| text[..at].chars().count());
        assert_eq!(position_of(&chars, pattern), expected);
        let goes_on = text.strip_prefix(pattern).is_some_and(|rest| !rest.is_empty());
        assert_eq!(is_longer_than_prefix(&chars, pattern), goes_on);
    }
    assert!(same_text("a", "a"));
    assert!(!same_text("a", "A"));
    assert!(has_control(&chars_of("a\u{85}")));
    assert!(!has_control(&chars_of("aé")));
}

#[test]
fn printable_prefixes_drop_controls_and_the_rest() {
    assert_eq!(printable_prefix("a\x1bb\nc", 2), "ab");
    assert_eq!(printable_prefix("a\x1bb\nc", 9), "abc");
    assert_eq!(printable_prefix("abc", 0), "");
}

#[test]
fn numbers_are_written_in_decimal() {
    for n in [0, 9, 10, 65_535, u64::MAX] {
        assert_eq!(decimal_of(n), n.to_string());
    }
}

#[test]
fn spans_agree_with_the_standard_library() {
    let greatest = std::time::Duration::MAX;
    assert_eq!(MAX_NANOS, greatest.as_nanos());
    assert_eq!(Duration::from_secs(3).as_nanos(), 3_000_000_000);
    assert_eq!(Duration::from_millis(250).as_nanos(), 250_000_000);
    assert_eq!(Duration::from_nanos(7).saturating_double(), Duration::from_nanos(14));
    let long = Duration::from_secs(u64::MAX);
    assert_eq!(
        long.saturating_double().as_nanos(),
        std::time::Duration::from_secs(u64::MAX).saturating_mul(2).as_nanos()
    );
    assert_eq!(long.shorter_of(Duration::zero()), Duration::zero());
    assert!(Duration::zero().is_zero());
    assert!(Duration::zero().at_most(&long));
    assert!(!long.at_most(&Duration::zero()));
}
