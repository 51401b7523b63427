//! The request line: from the bytes of a request to the path it asks for.

use vstd::prelude::*;
use vstd::utf8::{decode_utf8, valid_utf8};
use crate::text::{
    chars_of,
    first_line_len,
    is_solid,
    is_whitespace,
    lemma_first_line,
    lemma_words_after_blank,
    lemma_words_after_word,
    line_of,
    word_spans,
    words_of,
};

verus! {

/// The number of bytes of a request that are looked at. What a client sends
/// beyond them is never read.
pub const REQUEST_LIMIT: usize = 1024;

/// The text that lossy UTF-8 decoding makes of `bytes`: the characters that
/// the well-formed stretches encode, with U+FFFD in place of each ill-formed
/// one.
pub uninterp spec fn lossy_text(bytes: Seq<u8>) -> Seq<char>;

/// Decodes `bytes` with `String::from_utf8_lossy`. The result is taken to be
/// a function of the bytes alone, named `lossy_text`, and to be the plain
/// decoding of the bytes where they are well-formed UTF-8.
#[verifier::external_body]
pub(crate) fn decode_lossy(bytes: &[u8]) -> (text: String)
    ensures
        text@ == lossy_text(bytes@),
        valid_utf8(bytes@) ==> text@ == decode_utf8(bytes@),
{
    String::from_utf8_lossy(bytes).into_owned()
}

/// The part of a request that is looked at: its first `REQUEST_LIMIT` bytes.
pub open spec fn window(bytes: Seq<u8>) -> Seq<u8> {
    if bytes.len() <= REQUEST_LIMIT {
        bytes
    } else {
        bytes.take(REQUEST_LIMIT as int)
    }
}

/// The text of a request: the lossy decoding of the bytes looked at.
pub open spec fn text_of(bytes: Seq<u8>) -> Seq<char> {
    lossy_text(window(bytes))
}

/// The path that the request `text` asks for: the second word of its first
/// line, provided the first word is exactly `GET`. Text with no line, a line
/// with fewer than two words, or another method asks for nothing.
pub open spec fn target_of(text: Seq<char>) -> Option<Seq<char>> {
    match line_of(text) {
        None => None,
        Some(line) => {
            let words = words_of(line);
            if words.len() >= 2 && words[0] == "GET"@ {
                Some(words[1])
            } else {
                None
            }
        },
    }
}

/// The requested path relative to the server root: `target` without one
/// leading slash.
pub open spec fn relative_of(target: Seq<char>) -> Seq<char> {
    if target.len() > 0 && target[0] == '/' {
        target.drop_first()
    } else {
        target
    }
}

/// Decodes the part of a request that is looked at. Well-formed UTF-8 is
/// decoded as it stands.
pub fn request_text(bytes: &[u8]) -> (text: String)
    ensures
        text@ == text_of(bytes@),
        valid_utf8(window(bytes@)) ==> text@ == decode_utf8(window(bytes@)),
{
    if bytes.len() <= REQUEST_LIMIT {
        decode_lossy(bytes)
    } else {
        proof {
            assert(bytes@.take(REQUEST_LIMIT as int) == bytes@.subrange(0, REQUEST_LIMIT as int));
        }
        decode_lossy(&bytes[0..REQUEST_LIMIT])
    }
}

/// Reads the request line of `text` and returns the path that a `GET` asks
/// for.
pub fn request_target(text: &str) -> (target: Option<String>)
    ensures
        target is Some <==> target_of(text@) is Some,
        target matches Some(path) ==> target_of(text@) == Some(path@),
{
    let chars = chars_of(text);
    let len: usize = match first_line_len(chars.as_slice()) {
        None => {
            return None;
        },
        Some(len) => len,
    };
    let line: &[char] = &chars.as_slice()[0..len];
    assert(line@ == text@.take(len as int));
    let spans = word_spans(line);
    if spans.len() < 2 {
        return None;
    }
    let method = spans[0];
    let path = spans[1];
    proof {
        reveal_strlit("GET");
        assert(words_of(line@)[0] == line@.subrange(method.0 as int, method.1 as int));
        assert(words_of(line@)[1] == line@.subrange(path.0 as int, path.1 as int));
        assert(line@.subrange(path.0 as int, path.1 as int) == text@.subrange(
            path.0 as int,
            path.1 as int,
        ));
    }
    if method.1 - method.0 == 3 && line[method.0] == 'G' && line[method.0 + 1] == 'E' && line[method.0
        + 2] == 'T' {
        assert(words_of(line@)[0] =~= "GET"@);
        Some(text.substring_char(path.0, path.1).to_owned())
    } else {
        proof {
            let word = words_of(line@)[0];
            if word.len() == 3 {
                assert(word[0] != 'G' || word[1] != 'E' || word[2] != 'T');
            }
        }
        None
    }
}

/// Strips one leading slash from a requested path.
pub fn strip_leading_slash(target: &str) -> (relative: String)
    ensures
        relative@ == relative_of(target@),
{
    let len: usize = target.unicode_len();
    if len > 0 && target.get_char(0) == '/' {
        assert(target@.drop_first() == target@.subrange(1, len as int));
        target.substring_char(1, len).to_owned()
    } else {
        target.to_owned()
    }
}

/// A request line of the usual form asks for the path that it names. Where
/// the text begins with `GET`, a space, a path without white space, a space
/// and the protocol version, and the line ends there, the path is the target,
/// whatever headers and body follow.
pub proof fn lemma_get_line(path: Seq<char>, rest: Seq<char>)
    requires
        path.len() > 0,
        is_solid(path),
    ensures
        target_of("GET "@ + path + " HTTP/1.1\r\n"@ + rest) == Some(path),
{
    reveal_strlit("GET ");
    reveal_strlit("GET");
    reveal_strlit(" HTTP/1.1\r\n");
    let version = seq!['H', 'T', 'T', 'P', '/', '1', '.', '1'];
    let line = "GET"@ + seq![' '] + path + seq![' '] + version;
    let text = "GET "@ + path + " HTTP/1.1\r\n"@ + rest;
    assert(text =~= (line + seq!['\r']) + seq!['\n'] + rest);
    assert forall|i: int| 0 <= i < (line + seq!['\r']).len() implies #[trigger] (line + seq![
        '\r',
    ])[i] != '\n' by {
        let at = i - 4;
        if 0 <= at < path.len() {
            assert((line + seq!['\r'])[i] == path[at]);
            assert(!is_whitespace(path[at]));
        }
    }
    lemma_first_line(line + seq!['\r'], rest);
    assert((line + seq!['\r']).drop_last() =~= line);
    assert(line_of(text) == Some(line));

    let after_method = seq![' '] + (path + (seq![' '] + version));
    let after_path = seq![' '] + version;
    assert(line =~= "GET"@ + after_method);
    assert(is_solid("GET"@));
    lemma_words_after_word("GET"@, after_method);
    lemma_words_after_blank(' ', path + after_path);
    lemma_words_after_word(path, after_path);
    assert(words_of(line) =~= seq!["GET"@, path] + words_of(after_path));
    assert(words_of(line)[0] == "GET"@);
    assert(words_of(line)[1] == path);
}

/// Only `GET` is answered. A request line that names another method, in the
/// same form, asks for nothing.
pub proof fn lemma_other_method(method: Seq<char>, path: Seq<char>, rest: Seq<char>)
    requires
        method.len() > 0,
        is_solid(method),
        method != "GET"@,
        path.len() > 0,
        is_solid(path),
    ensures
        target_of(method + seq![' '] + path + " HTTP/1.1\r\n"@ + rest) is None,
{
    reveal_strlit(" HTTP/1.1\r\n");
    let version = seq!['H', 'T', 'T', 'P', '/', '1', '.', '1'];
    let line = method + seq![' '] + path + seq![' '] + version;
    let text = method + seq![' '] + path + " HTTP/1.1\r\n"@ + rest;
    assert(text =~= (line + seq!['\r']) + seq!['\n'] + rest);
    assert forall|i: int| 0 <= i < (line + seq!['\r']).len() implies #[trigger] (line + seq![
        '\r',
    ])[i] != '\n' by {
        if i < method.len() {
            assert((line + seq!['\r'])[i] == method[i]);
            assert(!is_whitespace(method[i]));
        } else {
            let at = i - method.len() - 1;
            if 0 <= at < path.len() {
                assert((line + seq!['\r'])[i] == path[at]);
                assert(!is_whitespace(path[at]));
            }
        }
    }
    lemma_first_line(line + seq!['\r'], rest);
    assert((line + seq!['\r']).drop_last() =~= line);
    let after_method = seq![' '] + (path + (seq![' '] + version));
    assert(line =~= method + after_method);
    lemma_words_after_word(method, after_method);
    assert(words_of(line)[0] == method);
}

/// A first line with fewer than two words asks for nothing: an empty line,
/// a line of white space, or a single word.
pub proof fn lemma_short_line(text: Seq<char>)
    requires
        line_of(text) matches Some(line) ==> words_of(line).len() < 2,
    ensures
        target_of(text) is None,
{
}

/// A line of one word, whatever the word and whatever follows the line, asks
/// for nothing.
pub proof fn lemma_single_word_line(word: Seq<char>, rest: Seq<char>)
    requires
        is_solid(word),
    ensures
        target_of(word + seq!['\n'] + rest) is None,
{
    assert forall|i: int| 0 <= i < word.len() implies #[trigger] word[i] != '\n' by {
        assert(!is_whitespace(word[i]));
    }
    lemma_first_line(word, rest);
    if word.len() > 0 {
        assert(word.last() != '\r') by {
            assert(!is_whitespace(word[word.len() - 1]));
        }
        assert(word + Seq::<char>::empty() =~= word);
        lemma_words_after_word(word, Seq::empty());
        assert(words_of(Seq::<char>::empty()).len() == 0);
    } else {
        assert(words_of(word).len() == 0);
    }
}

} // verus!
