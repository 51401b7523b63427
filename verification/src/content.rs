//! The content type of a file, told by the end of its name.

use vstd::prelude::*;
use vstd::string::is_ascii;
use crate::bytes::{ascii, ends_with};
use crate::path::{file_name, file_name_of, is_name, is_piece, lemma_file_name_of_joined, DOT, SLASH};

verus! {

/// The content types that a response can announce.
#[derive(Clone, Copy, Debug, PartialEq, Eq, Structural)]
pub enum ContentType {
    /// `text/html`
    Html,
    /// `text/plain`
    Plain,
    /// `application/octet-stream`
    OctetStream,
}

impl ContentType {
    /// The name of the content type as it stands in a header.
    pub open spec fn name(self) -> Seq<char> {
        match self {
            ContentType::Html => "text/html"@,
            ContentType::Plain => "text/plain"@,
            ContentType::OctetStream => "application/octet-stream"@,
        }
    }

    /// Returns the name of the content type as it stands in a header.
    pub fn as_str(self) -> (name: &'static str)
        ensures
            name@ == self.name(),
            is_ascii(name),
    {
        proof {
            reveal_strlit("text/html");
            reveal_strlit("text/plain");
            reveal_strlit("application/octet-stream");
        }
        match self {
            ContentType::Html => "text/html",
            ContentType::Plain => "text/plain",
            ContentType::OctetStream => "application/octet-stream",
        }
    }
}

/// The content type of a file called `name`: HTML where the name ends in
/// `.html`, plain text where it ends in `.txt`, and a stream of octets for
/// every other name.
pub open spec fn content_type_of(name: Seq<u8>) -> ContentType {
    if ascii(".html"@).is_suffix_of(name) {
        ContentType::Html
    } else if ascii(".txt"@).is_suffix_of(name) {
        ContentType::Plain
    } else {
        ContentType::OctetStream
    }
}

/// The content type of the file at `path`, told by the final component. A
/// path without a file name counts as one with an empty name.
pub open spec fn content_type_at(path: Seq<u8>) -> ContentType {
    match file_name_of(path) {
        Some(name) => content_type_of(name),
        None => content_type_of(Seq::empty()),
    }
}

/// Tells the content type of a file by its name.
pub fn content_type_for(name: &[u8]) -> (content_type: ContentType)
    ensures
        content_type == content_type_of(name@),
{
    broadcast use vstd::string::is_ascii_spec_bytes;

    proof {
        reveal_strlit(".html");
        reveal_strlit(".txt");
        assert(is_ascii(".html"));
        assert(is_ascii(".txt"));
    }
    if ends_with(name, ".html".as_bytes()) {
        ContentType::Html
    } else if ends_with(name, ".txt".as_bytes()) {
        ContentType::Plain
    } else {
        ContentType::OctetStream
    }
}

/// Tells the content type of the file at `path`.
pub fn content_type_for_path(path: &[u8]) -> (content_type: ContentType)
    ensures
        content_type == content_type_at(path@),
{
    match file_name(path) {
        Some(name) => content_type_for(name.as_slice()),
        None => {
            let empty: Vec<u8> = Vec::new();
            content_type_for(empty.as_slice())
        },
    }
}

/// A name that ends in `.html` is HTML.
pub proof fn lemma_html_name(stem: Seq<u8>)
    ensures
        content_type_of(stem + ascii(".html"@)) == ContentType::Html,
{
    reveal_strlit(".html");
    let name = stem + ascii(".html"@);
    assert(ascii(".html"@) =~= name.subrange(name.len() - 5, name.len() as int));
}

/// A name that ends in `.txt` is plain text.
pub proof fn lemma_txt_name(stem: Seq<u8>)
    ensures
        content_type_of(stem + ascii(".txt"@)) == ContentType::Plain,
{
    reveal_strlit(".html");
    reveal_strlit(".txt");
    let name = stem + ascii(".txt"@);
    assert(ascii(".txt"@) =~= name.subrange(name.len() - 4, name.len() as int));
    if ascii(".html"@).is_suffix_of(name) {
        assert(name.subrange(name.len() - 5, name.len() as int)[4] == name[name.len() - 1]);
        assert(name[name.len() - 1] == ascii(".txt"@)[3]);
        assert(ascii(".html"@)[4] != ascii(".txt"@)[3]);
    }
}

/// A name with neither ending is a stream of octets; so is every name
/// without an extension.
pub proof fn lemma_other_name(name: Seq<u8>)
    requires
        !ascii(".html"@).is_suffix_of(name),
        !ascii(".txt"@).is_suffix_of(name),
    ensures
        content_type_of(name) == ContentType::OctetStream,
{
}

/// A name without a dot has no extension, and is a stream of octets.
pub proof fn lemma_name_without_dot(name: Seq<u8>)
    requires
        forall|i: int| 0 <= i < name.len() ==> #[trigger] name[i] != DOT,
    ensures
        content_type_of(name) == ContentType::OctetStream,
{
    reveal_strlit(".html");
    reveal_strlit(".txt");
    if ascii(".html"@).is_suffix_of(name) {
        assert(name.subrange(name.len() - 5, name.len() as int)[0] == name[name.len() - 5]);
        assert(ascii(".html"@)[0] == DOT);
    }
    if ascii(".txt"@).is_suffix_of(name) {
        assert(name.subrange(name.len() - 4, name.len() as int)[0] == name[name.len() - 4]);
        assert(ascii(".txt"@)[0] == DOT);
    }
}

/// The content type of a file is told by its own name, not by the names of
/// the directories above it.
pub proof fn lemma_content_type_of_file(parent: Seq<u8>, name: Seq<u8>)
    requires
        is_piece(name),
        is_name(name),
        name != seq![DOT, DOT],
    ensures
        content_type_at(parent + seq![SLASH] + name) == content_type_of(name),
{
    lemma_file_name_of_joined(parent, name);
}

} // verus!
