use llm_stream::parser::{classify_line, next_line, RawEventLine};
use llm_stream::stream::{StreamError, TransportError};
use llm_stream::text::{
    char_is_whitespace, chars_of, contains, decimal_chars, matches_at, parse_u64, same_text,
    signed_decimal_chars, trimmed,
};
use llm_stream::utf8_stream::Utf8Error;

fn chars(text: &str) -> Vec<char> {
    text.chars().collect()
}

fn text(chars: &[char]) -> String {
    chars.iter().collect()
}

#[test]
fn white_space_is_what_the_standard_library_says() {
    for code in 0..=0x3100u32 {
        if let Some(c) = char::from_u32(code) {
            assert_eq!(char_is_whitespace(c), c.is_whitespace(), "U+{:04X}", code);
        }
    }
    assert!(!char_is_whitespace('\u{feff}'));
    assert!(!char_is_whitespace('\u{200b}'));
}

#[test]
fn trimming_agrees_with_the_standard_library() {
    for case in ["", " ", "a", " a ", "\t\r\n a b \u{a0}\u{3000}", "a\n", "\u{2028}x\u{85}", "  "] {
        assert_eq!(text(&trimmed(&chars(case))), case.trim(), "{:?}", case);
    }
}

#[test]
fn the_characters_of_a_text() {
    assert_eq!(chars_of("h\u{e9}\u{1f600}"), vec!['h', '\u{e9}', '\u{1f600}']);
    assert_eq!(chars_of(""), Vec::<char>::new());
    assert!(same_text("abc", "abc"));
    assert!(!same_text("abc", "abd"));
    assert!(!same_text("abc", "ab"));
    assert!(same_text("", ""));
}

#[test]
fn a_text_is_found_in_another() {
    for (hay, needle) in [
        ("application/x-ndjson", "ndjson"),
        ("ndjson", "ndjson"),
        ("ndjso", "ndjson"),
        ("xndjsonx", "ndjson"),
        ("nndjsondjson", "ndjson"),
        ("abc", ""),
        ("", ""),
        ("", "a"),
        ("aab", "ab"),
    ] {
        assert_eq!(contains(&chars(hay), &chars(needle)), hay.contains(needle), "{} {}", hay, needle);
    }
    assert!(matches_at(&chars("xab"), &chars("ab"), 1));
    assert!(!matches_at(&chars("xab"), &chars("ab"), 0));
}

#[test]
fn numbers_are_read_from_digits() {
    assert_eq!(parse_u64(&chars("0")), Some(0));
    assert_eq!(parse_u64(&chars("0042")), Some(42));
    assert_eq!(parse_u64(&chars("18446744073709551615")), Some(u64::MAX));
    assert_eq!(parse_u64(&chars("18446744073709551616")), None);
    assert_eq!(parse_u64(&chars("184467440737095516150")), None);
    assert_eq!(parse_u64(&chars("")), None);
    assert_eq!(parse_u64(&chars("+1")), None);
    assert_eq!(parse_u64(&chars("1 ")), None);
    assert_eq!(parse_u64(&chars("1a")), None);
}

#[test]
fn numbers_are_written_in_digits() {
    for n in [0u64, 7, 10, 99, 100, 12345, u64::MAX] {
        assert_eq!(text(&decimal_chars(n)), n.to_string());
    }
    for n in [0i64, -1, 1, -10, 42, i64::MAX, i64::MIN, i64::MIN + 1] {
        assert_eq!(text(&signed_decimal_chars(n)), n.to_string());
    }
}

fn field(name: &str, value: Option<&str>) -> RawEventLine {
    RawEventLine::Field(chars(name), value.map(chars))
}

fn same_line(a: &RawEventLine, b: &RawEventLine) -> bool {
    match (a, b) {
        (RawEventLine::Empty, RawEventLine::Empty) => true,
        (RawEventLine::Comment(x), RawEventLine::Comment(y)) => x == y,
        (RawEventLine::Field(n, v), RawEventLine::Field(m, w)) => n == m && v == w,
        _ => false,
    }
}

#[test]
fn lines_are_told_apart() {
    let cases = [
        ("", RawEventLine::Empty),
        (":", RawEventLine::Comment(vec![])),
        (": note", RawEventLine::Comment(chars(" note"))),
        ("data", field("data", None)),
        ("data:", field("data", Some(""))),
        ("data: ", field("data", Some(""))),
        ("data:  x", field("data", Some(" x"))),
        ("data:x:y", field("data", Some("x:y"))),
        (" id: 1", field(" id", Some("1"))),
    ];
    for (line, expected) in cases {
        assert!(same_line(&classify_line(&chars(line)), &expected), "{:?}", line);
    }
}

#[test]
fn a_line_ends_with_a_line_break() {
    let taken = |input: &str| next_line(&chars(input)).map(|(_, n)| n);
    assert_eq!(taken(""), None);
    assert_eq!(taken("data: x"), None);
    assert_eq!(taken("data: x\n"), Some(8));
    assert_eq!(taken("data: x\r"), None);
    assert_eq!(taken("data: x\r\n"), Some(9));
    assert_eq!(taken("data: x\rn"), Some(8));
    assert_eq!(taken("\n\n"), Some(1));
    assert_eq!(taken("\r\r"), Some(1));
    match next_line(&chars("a: b\r\nrest")) {
        Some((line, n)) => {
            assert_eq!(n, 6);
            assert!(same_line(&line, &field("a", Some("b"))));
        }
        None => panic!("no line"),
    }
}

#[test]
fn errors_of_a_stream_in_words() {
    assert_eq!(
        StreamError::Utf8(Utf8Error::Malformed).message(),
        "UTF8 error: invalid utf-8 sequence"
    );
    assert_eq!(
        StreamError::Utf8(Utf8Error::Truncated).message(),
        "UTF8 error: incomplete utf-8 byte sequence"
    );
    assert_eq!(StreamError::Transport(TransportError::Closed).message(), "Transport error: closed");
    assert_eq!(
        StreamError::Transport(TransportError::LastOperationFailed("x".to_string())).message(),
        "Transport error: x"
    );
    assert_eq!(StreamError::from(Utf8Error::Malformed), StreamError::Utf8(Utf8Error::Malformed));
}
