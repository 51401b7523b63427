//! Responses and the bytes that carry them.

use vstd::prelude::*;
use vstd::string::is_ascii;
use crate::bytes::{ascii, push_text};
use crate::content::ContentType;
use crate::decimal::{digits_of, push_decimal};

verus! {

/// A response to one request. There are two: the file that was asked for, and
/// the notice that nothing is to be had under that path.
#[derive(Debug, PartialEq, Eq)]
pub enum Response {
    /// Status 200, with the content of a file.
    Found { content_type: ContentType, body: Vec<u8> },
    /// Status 404.
    NotFound,
}

/// What a `Response` holds, as mathematical values.
pub enum ResponseView {
    Found { content_type: ContentType, body: Seq<u8> },
    NotFound,
}

impl View for Response {
    type V = ResponseView;

    open spec fn view(&self) -> ResponseView {
        match self {
            Response::Found { content_type, body } => ResponseView::Found {
                content_type: *content_type,
                body: body@,
            },
            Response::NotFound => ResponseView::NotFound,
        }
    }
}

impl ResponseView {
    /// The status code.
    pub open spec fn code(self) -> nat {
        match self {
            ResponseView::Found { .. } => 200,
            ResponseView::NotFound => 404,
        }
    }

    /// The status code and reason phrase of the status line.
    pub open spec fn status(self) -> Seq<char> {
        match self {
            ResponseView::Found { .. } => "200 OK"@,
            ResponseView::NotFound => "404 Not Found"@,
        }
    }

    /// The content type that the response announces.
    pub open spec fn content_type(self) -> ContentType {
        match self {
            ResponseView::Found { content_type, .. } => content_type,
            ResponseView::NotFound => ContentType::Plain,
        }
    }

    /// The bytes after the blank line.
    pub open spec fn body(self) -> Seq<u8> {
        match self {
            ResponseView::Found { body, .. } => body,
            ResponseView::NotFound => ascii("404 not found"@),
        }
    }

    /// The status line, the three headers and the blank line. The length
    /// announced is the length of the body, in decimal.
    pub open spec fn head(self) -> Seq<char> {
        "HTTP/1.1 "@ + self.status() + "\r\nContent-Type: "@ + self.content_type().name()
            + "\r\nContent-Length: "@ + digits_of(self.body().len())
            + "\r\nConnection: close\r\n\r\n"@
    }

    /// The response as it goes over the connection: head, then body.
    pub open spec fn wire(self) -> Seq<u8> {
        ascii(self.head()) + self.body()
    }
}

/// A found file goes out as the status line `HTTP/1.1 200 OK`, its content
/// type, the decimal count of its bytes, `Connection: close`, a blank line,
/// and then the bytes themselves, unchanged.
pub proof fn lemma_found_wire(content_type: ContentType, body: Seq<u8>)
    ensures
        (ResponseView::Found { content_type, body }).wire() == ascii(
            "HTTP/1.1 200 OK\r\nContent-Type: "@ + content_type.name() + "\r\nContent-Length: "@
                + digits_of(body.len()) + "\r\nConnection: close\r\n\r\n"@,
        ) + body,
{
    reveal_strlit("HTTP/1.1 ");
    reveal_strlit("200 OK");
    reveal_strlit("\r\nContent-Type: ");
    reveal_strlit("HTTP/1.1 200 OK\r\nContent-Type: ");
    assert("HTTP/1.1 "@ + "200 OK"@ + "\r\nContent-Type: "@ =~= "HTTP/1.1 200 OK\r\nContent-Type: "@);
}

/// The 404 response is one fixed string of bytes.
pub proof fn lemma_not_found_wire()
    ensures
        ResponseView::NotFound.wire() == ascii(
            "HTTP/1.1 404 Not Found\r\nContent-Type: text/plain\r\nContent-Length: 13\r\nConnection: close\r\n\r\n404 not found"@,
        ),
{
    reveal_strlit("HTTP/1.1 ");
    reveal_strlit("404 Not Found");
    reveal_strlit("\r\nContent-Type: ");
    reveal_strlit("text/plain");
    reveal_strlit("\r\nContent-Length: ");
    reveal_strlit("\r\nConnection: close\r\n\r\n");
    reveal_strlit("404 not found");
    reveal_strlit(
        "HTTP/1.1 404 Not Found\r\nContent-Type: text/plain\r\nContent-Length: 13\r\nConnection: close\r\n\r\n404 not found",
    );
    reveal_with_fuel(digits_of, 2);
    assert(digits_of(13) =~= seq!['1', '3']);
    assert(ResponseView::NotFound.wire() =~= ascii(
        "HTTP/1.1 404 Not Found\r\nContent-Type: text/plain\r\nContent-Length: 13\r\nConnection: close\r\n\r\n404 not found"@,
    ));
}

impl Response {
    /// Returns the status code: 200 or 404.
    pub fn code(&self) -> (code: u16)
        ensures
            code == self@.code(),
    {
        match self {
            Response::Found { .. } => 200,
            Response::NotFound => 404,
        }
    }

    /// Returns the content type that the response announces.
    pub fn content_type(&self) -> (content_type: ContentType)
        ensures
            content_type == self@.content_type(),
    {
        match self {
            Response::Found { content_type, .. } => *content_type,
            Response::NotFound => ContentType::Plain,
        }
    }

    /// Returns the bytes that follow the blank line.
    pub fn body(&self) -> (bytes: &[u8])
        ensures
            bytes@ == self@.body(),
    {
        broadcast use vstd::string::is_ascii_spec_bytes;

        match self {
            Response::Found { body, .. } => body.as_slice(),
            Response::NotFound => {
                proof {
                    reveal_strlit("404 not found");
                    assert(is_ascii("404 not found"));
                }
                "404 not found".as_bytes()
            },
        }
    }

    /// Returns the status line, the headers and the blank line.
    pub fn head(&self) -> (bytes: Vec<u8>)
        ensures
            bytes@ == ascii(self@.head()),
    {
        proof {
            reveal_strlit("HTTP/1.1 ");
            reveal_strlit("200 OK");
            reveal_strlit("404 Not Found");
            reveal_strlit("\r\nContent-Type: ");
            reveal_strlit("\r\nContent-Length: ");
            reveal_strlit("\r\nConnection: close\r\n\r\n");
        }
        let status: &str = match self {
            Response::Found { .. } => "200 OK",
            Response::NotFound => "404 Not Found",
        };
        let length: usize = self.body().len();
        let mut bytes: Vec<u8> = Vec::new();
        push_text(&mut bytes, "HTTP/1.1 ");
        push_text(&mut bytes, status);
        push_text(&mut bytes, "\r\nContent-Type: ");
        push_text(&mut bytes, self.content_type().as_str());
        push_text(&mut bytes, "\r\nContent-Length: ");
        push_decimal(&mut bytes, length);
        push_text(&mut bytes, "\r\nConnection: close\r\n\r\n");
        assert(bytes@ =~= ascii(self@.head()));
        bytes
    }

    /// Returns the whole response as it goes over the connection.
    pub fn to_bytes(&self) -> (bytes: Vec<u8>)
        ensures
            bytes@ == self@.wire(),
    {
        let mut bytes = self.head();
        bytes.extend_from_slice(self.body());
        assert(bytes@ =~= self@.wire());
        bytes
    }
}

} // verus!
