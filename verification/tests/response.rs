use static_server::bytes::{ends_with, push_text, same_bytes};
use static_server::content::ContentType;
use static_server::decimal::push_decimal;
use static_server::response::Response;

const NOT_FOUND: &[u8] = b"HTTP/1.1 404 Not Found\r\nContent-Type: text/plain\r\nContent-Length: 13\r\nConnection: close\r\n\r\n404 not found";

fn decimal(n: usize) -> String {
    let mut out = Vec::new();
    push_decimal(&mut out, n);
    String::from_utf8(out).unwrap()
}

#[test]
fn not_found_is_byte_exact() {
    assert_eq!(Response::NotFound.to_bytes(), NOT_FOUND.to_vec());
}

#[test]
fn not_found_parts() {
    let response = Response::NotFound;
    assert_eq!(response.code(), 404);
    assert_eq!(response.content_type(), ContentType::Plain);
    assert_eq!(response.body(), b"404 not found");
    assert_eq!(response.body().len(), 13);
    assert_eq!(
        response.head(),
        b"HTTP/1.1 404 Not Found\r\nContent-Type: text/plain\r\nContent-Length: 13\r\nConnection: close\r\n\r\n".to_vec()
    );
}

#[test]
fn found_html_is_byte_exact() {
    let response = Response::Found { content_type: ContentType::Html, body: b"<h1>hi</h1>".to_vec() };
    assert_eq!(
        response.to_bytes(),
        b"HTTP/1.1 200 OK\r\nContent-Type: text/html\r\nContent-Length: 11\r\nConnection: close\r\n\r\n<h1>hi</h1>".to_vec()
    );
    assert_eq!(response.code(), 200);
}

#[test]
fn found_plain_is_byte_exact() {
    let response = Response::Found { content_type: ContentType::Plain, body: b"hello\n".to_vec() };
    assert_eq!(
        response.to_bytes(),
        b"HTTP/1.1 200 OK\r\nContent-Type: text/plain\r\nContent-Length: 6\r\nConnection: close\r\n\r\nhello\n".to_vec()
    );
}

#[test]
fn found_octet_stream_keeps_every_byte() {
    let body: Vec<u8> = (0u8..=255).collect();
    let response = Response::Found { content_type: ContentType::OctetStream, body: body.clone() };
    let mut expected = b"HTTP/1.1 200 OK\r\nContent-Type: application/octet-stream\r\nContent-Length: 256\r\nConnection: close\r\n\r\n".to_vec();
    expected.extend_from_slice(&body);
    assert_eq!(response.to_bytes(), expected);
    assert_eq!(response.body(), &body[..]);
}

#[test]
fn found_empty_file_announces_zero() {
    let response = Response::Found { content_type: ContentType::Plain, body: Vec::new() };
    assert_eq!(
        response.to_bytes(),
        b"HTTP/1.1 200 OK\r\nContent-Type: text/plain\r\nContent-Length: 0\r\nConnection: close\r\n\r\n".to_vec()
    );
}

#[test]
fn head_and_body_make_the_whole() {
    let response = Response::Found { content_type: ContentType::Html, body: vec![b'x'; 1000] };
    let mut joined = response.head();
    joined.extend_from_slice(response.body());
    assert_eq!(joined, response.to_bytes());
    assert!(ends_with(&response.head(), b"Content-Length: 1000\r\nConnection: close\r\n\r\n"));
}

#[test]
fn decimal_notation() {
    assert_eq!(decimal(0), "0");
    assert_eq!(decimal(7), "7");
    assert_eq!(decimal(10), "10");
    assert_eq!(decimal(13), "13");
    assert_eq!(decimal(100), "100");
    assert_eq!(decimal(1024), "1024");
    assert_eq!(decimal(4294967295), "4294967295");
    assert_eq!(decimal(usize::MAX), format!("{}", usize::MAX));
}

#[test]
fn decimal_notation_agrees_with_the_standard_formatter() {
    for n in 0usize..20000 {
        assert_eq!(decimal(n), format!("{}", n));
    }
}

#[test]
fn push_decimal_appends() {
    let mut out = b"n=".to_vec();
    push_decimal(&mut out, 42);
    assert_eq!(out, b"n=42".to_vec());
}

#[test]
fn push_text_appends_the_bytes_of_the_text() {
    let mut out = b"a".to_vec();
    push_text(&mut out, "bc\r\n");
    push_text(&mut out, "");
    assert_eq!(out, b"abc\r\n".to_vec());
    push_text(&mut out, "é");
    assert_eq!(out, b"abc\r\n\xc3\xa9".to_vec());
}

#[test]
fn same_bytes_compares_content() {
    assert!(same_bytes(b"", b""));
    assert!(same_bytes(b"abc", b"abc"));
    assert!(!same_bytes(b"abc", b"abd"));
    assert!(!same_bytes(b"abc", b"ab"));
    assert!(!same_bytes(b"", b"a"));
}

#[test]
fn ends_with_tests_the_suffix() {
    assert!(ends_with(b"index.html", b".html"));
    assert!(ends_with(b"index.html", b""));
    assert!(ends_with(b"", b""));
    assert!(ends_with(b".html", b".html"));
    assert!(!ends_with(b"html", b".html"));
    assert!(!ends_with(b"index.html", b".htm"));
    assert!(!ends_with(b"", b"a"));
}
