//! The laws of the small parts, on values.
use mish::classifier::is_similar;
use mish::distance::levenshtein;
use mish::emit::RingBuffer;
use mish::grammar::{parse_category, parse_rule_action, parse_severity, GrammarError};
use mish::line_buffer::{is_erase_sequence, Line, LineBuffer};
use mish::order::sort_texts;
use mish::strmap::StrMap;
use mish::text::{
    dec_i64, dec_u64, find_part, first_word_of, has_part, len_in_bytes, lines_of, padded_right,
    parse_number, replace_all, split_at_char, trimmed, without_prefix, zero_padded,
};

#[test]
fn decimals_are_read_back() {
    for n in [0, 7, 10, 99, 100, u64::MAX] {
        assert_eq!(parse_number(&dec_u64(n), u64::MAX), Some(n));
        assert_eq!(dec_u64(n), format!("{n}"));
    }
    assert_eq!(dec_i64(i64::MIN), format!("{}", i64::MIN));
    assert_eq!(parse_number("+5", 10), Some(5));
    assert_eq!(parse_number("11", 10), None);
    assert_eq!(parse_number("", 10), None);
    assert_eq!(parse_number("-1", 10), None);
    assert_eq!(parse_number("18446744073709551616", u64::MAX), None);
}

#[test]
fn lines_are_read_back() {
    let lines = ["a", "", "b c"];
    let text: String = lines.iter().map(|l| format!("{l}\n")).collect();
    assert_eq!(lines_of(&text), lines);
    for text in ["", "\n", "a", "a\r\nb", "a\rb\n\r\n", "x\r"] {
        let expected: Vec<&str> = text.lines().collect();
        assert_eq!(lines_of(text), expected, "{text:?}");
    }
}

#[test]
fn texts_are_cut_and_joined_as_usual() {
    assert_eq!(split_at_char("a,,b,", ','), "a,,b,".split(',').collect::<Vec<_>>());
    assert_eq!(trimmed(" \t\u{a0}x y\u{2003}\n"), " \t\u{a0}x y\u{2003}\n".trim());
    assert_eq!(first_word_of("  one two"), "one");
    assert_eq!(replace_all("aXbXX", "X", "--"), "aXbXX".replace("X", "--"));
    assert_eq!(replace_all("aaa", "aa", "b"), "aaa".replace("aa", "b"));
    assert_eq!(without_prefix("+ x", "+ "), Some("x".to_string()));
    assert_eq!(without_prefix("x", "+ "), None);
    assert!(has_part("hello", "ell") && !has_part("hello", "elo"));
    assert_eq!(len_in_bytes("h\u{e9}\u{2192}\u{1f600}"), "h\u{e9}\u{2192}\u{1f600}".len());
    assert_eq!(padded_right("ab", 4), format!("{:<4}", "ab"));
    assert_eq!(padded_right("abcde", 4), format!("{:<4}", "abcde"));
    assert_eq!(zero_padded("7", 3), "007");
    let text: Vec<char> = "abcabc".chars().collect();
    assert_eq!(find_part(&text, &['c', 'a']), Some(2));
    assert_eq!(find_part(&text, &['x']), None);
}

#[test]
fn maps_keep_the_last_value() {
    let mut map = StrMap::new();
    map.insert("a".to_string(), 1);
    map.insert("b".to_string(), 2);
    map.insert("a".to_string(), 3);
    assert_eq!(map.get("a"), Some(&3));
    assert_eq!(map.get("b"), Some(&2));
    assert_eq!(map.get("c"), None);
    assert_eq!(map.len(), 2);
}

#[test]
fn texts_are_sorted_as_strings_are() {
    let mut expected: Vec<String> =
        ["b", "a", "", "ab", "\u{e9}", "Z", "a"].iter().map(|s| s.to_string()).collect();
    let sorted = sort_texts(expected.clone());
    expected.sort();
    assert_eq!(sorted, expected);
}

#[test]
fn distances_are_symmetric() {
    for (a, b) in [("kitten", "sitting"), ("", "abc"), ("flaw", "lawn")] {
        assert_eq!(levenshtein(a, b), levenshtein(b, a));
        assert!(levenshtein(a, b) >= a.len().abs_diff(b.len()));
    }
    assert_eq!(levenshtein("kitten", "sitting"), 3);
    assert!(is_similar("Compiling a v1.0.0", "Compiling b v1.0.0"));
}

#[test]
fn chunks_may_end_at_line_feeds() {
    let mut whole = LineBuffer::new();
    let all = whole.ingest(b"one\ntwo\nthr");
    let mut parts = LineBuffer::new();
    let mut joined = parts.ingest(b"one\n");
    joined.extend(parts.ingest(b"two\nthr"));
    assert_eq!(all, joined);
    assert_eq!(whole.finalize(b"ee"), vec![Line::Partial("three".to_string())]);
}

#[test]
fn chunks_may_end_inside_a_line() {
    let mut whole = LineBuffer::new();
    let all = whole.ingest(b"one\ntwo\nthree\n");
    let mut parts = LineBuffer::new();
    let mut joined = parts.ingest(b"on");
    joined.extend(parts.ingest(b"e\ntw"));
    joined.extend(parts.ingest(b"o\nthree"));
    joined.extend(parts.ingest(b"\n"));
    assert_eq!(all, joined);
}

#[test]
fn lines_hold_no_terminators() {
    let mut buffer = LineBuffer::new();
    let lines = buffer.ingest(b"a\r\n\r\rb\r\x1b[Kc\xff\n\r\nd\r\r\n");
    for line in &lines {
        match line {
            Line::Complete(text) => assert!(!text.contains(['\r', '\n'])),
            Line::Overwrite(text) => assert!(!text.contains(['\r', '\n']) && !text.is_empty()),
            Line::Partial(text) => panic!("unfinished: {text}"),
        }
    }
    assert_eq!(lines.iter().filter(|l| matches!(l, Line::Complete(_))).count(), 4);
}

#[test]
fn rings_keep_the_last_items() {
    let mut ring = RingBuffer::new(2);
    for item in ["a", "b", "c"] {
        ring.push(item.to_string());
    }
    assert_eq!(ring.iter().collect::<Vec<_>>(), vec!["b", "c"]);
}

#[test]
fn erase_sequences_are_found() {
    assert_eq!(is_erase_sequence(b"\x1b[K", 0), Some(3));
    assert_eq!(is_erase_sequence(b"\x1b[m", 0), None);
    assert_eq!(is_erase_sequence(b"x", 0), None);
}

#[test]
fn unknown_keywords_are_refused() {
    assert!(matches!(parse_rule_action("burn"), Err(GrammarError::InvalidAction(w)) if w == "burn"));
    assert!(matches!(parse_severity("mild"), Err(GrammarError::InvalidSeverity(w)) if w == "mild"));
    assert!(matches!(parse_category("odd"), Err(GrammarError::InvalidCategory(w)) if w == "odd"));
    assert_eq!(parse_category("odd").unwrap_err().message(), "invalid category: odd");
}
