use static_server::port::{parse_port, port_from_args, DEFAULT_PORT};

fn args(words: &[&str]) -> Vec<String> {
    words.iter().map(|word| word.to_string()).collect()
}

#[test]
fn default_port_is_28333() {
    assert_eq!(DEFAULT_PORT, 28333);
}

#[test]
fn parses_plain_decimal() {
    assert_eq!(parse_port("8080"), Some(8080));
    assert_eq!(parse_port("0"), Some(0));
    assert_eq!(parse_port("1"), Some(1));
    assert_eq!(parse_port("28333"), Some(28333));
}

#[test]
fn parses_the_largest_port() {
    assert_eq!(parse_port("65535"), Some(65535));
}

#[test]
fn rejects_the_first_number_too_large() {
    assert_eq!(parse_port("65536"), None);
    assert_eq!(parse_port("70000"), None);
    assert_eq!(parse_port("99999999999999999999999999"), None);
}

#[test]
fn accepts_a_leading_plus() {
    assert_eq!(parse_port("+80"), Some(80));
    assert_eq!(parse_port("+0"), Some(0));
}

#[test]
fn accepts_leading_zeros() {
    assert_eq!(parse_port("0080"), Some(80));
    assert_eq!(parse_port("000000000000000000000000065535"), Some(65535));
}

#[test]
fn rejects_what_is_no_number() {
    assert_eq!(parse_port(""), None);
    assert_eq!(parse_port("+"), None);
    assert_eq!(parse_port("++1"), None);
    assert_eq!(parse_port("-1"), None);
    assert_eq!(parse_port("abc"), None);
    assert_eq!(parse_port("80a"), None);
    assert_eq!(parse_port("8 0"), None);
    assert_eq!(parse_port(" 80"), None);
    assert_eq!(parse_port("80 "), None);
    assert_eq!(parse_port("0x50"), None);
    assert_eq!(parse_port("8.0"), None);
    assert_eq!(parse_port("٣"), None);
    assert_eq!(parse_port("65536x"), None);
}

#[test]
fn parse_port_agrees_with_the_standard_parser() {
    let samples = [
        "", "+", "-", "0", "00", "+0", "-0", "1", "9", "10", "99", "100", "255", "256", "1024",
        "8080", "28333", "65534", "65535", "65536", "65537", "100000", "+65535", "+65536",
        "00065535", "00065536", "4294967296", "18446744073709551616", "1e3", "1_000", " 1",
        "1 ", "\t1", "1\n", "１２", "port", "8080/tcp", "+-1", "-+1", "+ 1", "0x1f", "١٢٣",
    ];
    for sample in samples {
        assert_eq!(parse_port(sample), sample.parse::<u16>().ok(), "argument {:?}", sample);
    }
    for number in 0u32..70000 {
        let text = format!("{}", number);
        assert_eq!(parse_port(&text), text.parse::<u16>().ok(), "argument {:?}", text);
    }
}

#[test]
fn explicit_port_argument_is_chosen() {
    assert_eq!(port_from_args(&args(&["server", "8080"])), 8080);
    assert_eq!(port_from_args(&args(&["server", "1"])), 1);
    assert_eq!(port_from_args(&args(&["server", "65535"])), 65535);
}

#[test]
fn missing_port_argument_falls_back_to_default() {
    assert_eq!(port_from_args(&args(&["server"])), 28333);
    assert_eq!(port_from_args(&args(&[])), 28333);
}

#[test]
fn bad_port_argument_falls_back_to_default() {
    assert_eq!(port_from_args(&args(&["server", "http"])), 28333);
    assert_eq!(port_from_args(&args(&["server", ""])), 28333);
    assert_eq!(port_from_args(&args(&["server", "65536"])), 28333);
    assert_eq!(port_from_args(&args(&["server", "-5"])), 28333);
}

#[test]
fn only_the_first_argument_counts() {
    assert_eq!(port_from_args(&args(&["server", "81", "82"])), 81);
    assert_eq!(port_from_args(&args(&["server", "x", "82"])), 28333);
}
