use static_server::text::{chars_of, first_line_len, is_whitespace, word_spans};

fn words(text: &str) -> Vec<String> {
    let chars: Vec<char> = text.chars().collect();
    word_spans(&chars)
        .into_iter()
        .map(|(begin, end)| chars[begin..end].iter().collect())
        .collect()
}

fn first_line(text: &str) -> Option<String> {
    let chars: Vec<char> = text.chars().collect();
    first_line_len(&chars).map(|len| chars[..len].iter().collect())
}

#[test]
fn whitespace_agrees_with_unicode_for_every_character() {
    for code in 0u32..=0x10FFFF {
        if let Some(c) = char::from_u32(code) {
            assert_eq!(is_whitespace(c), c.is_whitespace(), "U+{:04X}", code);
        }
    }
}

#[test]
fn whitespace_examples() {
    for c in [' ', '\t', '\n', '\r', '\u{0B}', '\u{0C}', '\u{85}', '\u{A0}', '\u{3000}'] {
        assert!(is_whitespace(c));
    }
    for c in ['a', '/', '0', '\0', '\u{1F}', '\u{200B}', '\u{FFFD}', '\u{FEFF}'] {
        assert!(!is_whitespace(c));
    }
}

#[test]
fn chars_of_lists_every_character() {
    assert_eq!(chars_of(""), Vec::<char>::new());
    assert_eq!(chars_of("GET"), vec!['G', 'E', 'T']);
    assert_eq!(chars_of("é\u{FFFD}z"), vec!['é', '\u{FFFD}', 'z']);
}

#[test]
fn empty_text_has_no_line() {
    assert_eq!(first_line(""), None);
}

#[test]
fn first_line_ends_at_the_line_feed() {
    assert_eq!(first_line("GET / HTTP/1.1\nHost: x\n"), Some("GET / HTTP/1.1".to_string()));
    assert_eq!(first_line("\nrest"), Some(String::new()));
    assert_eq!(first_line("\n"), Some(String::new()));
}

#[test]
fn first_line_drops_the_carriage_return_of_its_ending() {
    assert_eq!(first_line("GET / HTTP/1.1\r\nHost: x\r\n"), Some("GET / HTTP/1.1".to_string()));
    assert_eq!(first_line("\r\n"), Some(String::new()));
    assert_eq!(first_line("a\r\r\nb"), Some("a\r".to_string()));
}

#[test]
fn first_line_without_line_feed_is_the_whole_text() {
    assert_eq!(first_line("GET /"), Some("GET /".to_string()));
    assert_eq!(first_line("GET /\r"), Some("GET /\r".to_string()));
    assert_eq!(first_line("\r"), Some("\r".to_string()));
}

#[test]
fn first_line_agrees_with_the_standard_lines() {
    let samples = [
        "", "\n", "\r", "\r\n", "a", "a\n", "a\r\n", "a\rb\n", "a\n\n", "\n\na", "a\r", "ab\r\ncd",
        "\r\r\n", "a\n\r", "é\u{2028}x\ny",
    ];
    for sample in samples {
        assert_eq!(
            first_line(sample),
            sample.lines().next().map(|line| line.to_string()),
            "text {:?}",
            sample
        );
    }
}

#[test]
fn words_are_split_at_white_space() {
    assert_eq!(words("GET /index.html HTTP/1.1"), vec!["GET", "/index.html", "HTTP/1.1"]);
    assert_eq!(words("  GET\t\t/a  "), vec!["GET", "/a"]);
    assert_eq!(words("one"), vec!["one"]);
}

#[test]
fn blank_text_has_no_words() {
    assert_eq!(words(""), Vec::<String>::new());
    assert_eq!(words(" \t\r\n"), Vec::<String>::new());
    assert_eq!(words("\u{A0}\u{3000}"), Vec::<String>::new());
}

#[test]
fn words_are_split_at_unicode_white_space() {
    assert_eq!(words("GET\u{A0}/a\u{2003}HTTP/1.1"), vec!["GET", "/a", "HTTP/1.1"]);
    assert_eq!(words("a\u{200B}b"), vec!["a\u{200B}b"]);
}

#[test]
fn word_spans_mark_the_words() {
    let chars: Vec<char> = " ab  c".chars().collect();
    assert_eq!(word_spans(&chars), vec![(1, 3), (5, 6)]);
    assert_eq!(word_spans(&[]), Vec::<(usize, usize)>::new());
}

#[test]
fn words_agree_with_the_standard_split() {
    let samples = [
        "", " ", "a", " a", "a ", " a ", "a b", "a  b", "\ta\nb\rc\u{0B}d\u{0C}e", "GET / HTTP/1.1",
        "a\u{85}b\u{1680}c\u{2000}d\u{200A}e\u{2028}f\u{2029}g\u{202F}h\u{205F}i\u{3000}j",
        "\u{FFFD} \u{FFFD}", "é è", "   ", "x\u{180E}y",
    ];
    for sample in samples {
        let expected: Vec<String> = sample.split_whitespace().map(|w| w.to_string()).collect();
        assert_eq!(words(sample), expected, "text {:?}", sample);
    }
}
