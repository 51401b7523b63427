//! Lines and whitespace-separated words of decoded text.

use vstd::prelude::*;
use crate::scan::{first_where, lemma_first_where, lemma_first_where_is, lemma_spans_push, spans_of};

verus! {

/// Whether `c` is a white-space character of Unicode: the controls U+0009 to
/// U+000D, the space, U+0085, the no-break space, the Ogham space mark, the
/// spaces U+2000 to U+200A, the line and paragraph separators, the narrow
/// no-break space, the medium mathematical space and the ideographic space.
pub open spec fn spec_is_whitespace(c: char) -> bool {
    let n = c as u32;
    ||| 0x0009 <= n <= 0x000D
    ||| n == 0x0020
    ||| n == 0x0085
    ||| n == 0x00A0
    ||| n == 0x1680
    ||| 0x2000 <= n <= 0x200A
    ||| n == 0x2028
    ||| n == 0x2029
    ||| n == 0x202F
    ||| n == 0x205F
    ||| n == 0x3000
}

/// Tells whether `c` is a white-space character.
#[verifier::when_used_as_spec(spec_is_whitespace)]
pub fn is_whitespace(c: char) -> (b: bool)
    ensures
        b == spec_is_whitespace(c),
{
    let n: u32 = c as u32;
    let control: bool = 0x0009 <= n && n <= 0x000D;
    let quad: bool = 0x2000 <= n && n <= 0x200A;
    control || quad || n == 0x0020 || n == 0x0085 || n == 0x00A0 || n == 0x1680 || n == 0x2028
        || n == 0x2029 || n == 0x202F || n == 0x205F || n == 0x3000
}

/// The characters of a string slice, one element each.
pub fn chars_of(text: &str) -> (chars: Vec<char>)
    ensures
        chars@ == text@,
{
    let mut chars: Vec<char> = Vec::new();
    for c in iter: text.chars()
        invariant
            chars@ == iter.seq().take(iter.index() as int),
    {
        chars.push(c);
    }
    chars
}

/// The predicate that holds of the line feed alone.
pub open spec fn newline() -> spec_fn(char) -> bool {
    |c: char| c == '\n'
}

/// The predicate that holds of white-space characters.
pub open spec fn blank() -> spec_fn(char) -> bool {
    |c: char| is_whitespace(c)
}

/// The predicate that holds of every character but white space.
pub open spec fn inked() -> spec_fn(char) -> bool {
    |c: char| !is_whitespace(c)
}

/// The length of the first line of `text`: the characters before the first
/// line feed, less a carriage return that stands directly before that line
/// feed. Text without a line feed is one line, a carriage return at its end
/// included.
pub open spec fn line_len(text: Seq<char>) -> nat {
    let end = first_where(text, newline());
    if 0 < end < text.len() && text[end - 1] == '\r' {
        (end - 1) as nat
    } else {
        end
    }
}

/// The first line of `text`, without its line ending. Empty text has no line.
pub open spec fn line_of(text: Seq<char>) -> Option<Seq<char>> {
    if text.len() == 0 {
        None
    } else {
        Some(text.take(line_len(text) as int))
    }
}

/// The words of `s`: its maximal runs of characters that are not white space,
/// in the order in which they stand.
pub open spec fn words_of(s: Seq<char>) -> Seq<Seq<char>>
    decreases s.len(),
{
    let start = first_where(s, inked());
    if start >= s.len() {
        Seq::empty()
    } else {
        let rest = s.skip(start as int);
        let len = first_where(rest, blank());
        proof {
            lemma_first_where(s, inked());
            lemma_first_where(rest, blank());
        }
        seq![rest.take(len as int)] + words_of(rest.skip(len as int))
    }
}

/// The index of the first element of `chars` at or after `from` that is white
/// space if `want_blank` is set, and is not if it is clear.
fn find(chars: &[char], from: usize, want_blank: bool) -> (at: usize)
    requires
        from <= chars@.len(),
    ensures
        from <= at <= chars@.len(),
        at == from + first_where(
            chars@.skip(from as int),
            if want_blank {
                blank()
            } else {
                inked()
            },
        ),
{
    let ghost tail = chars@.skip(from as int);
    let ghost p = if want_blank {
        blank()
    } else {
        inked()
    };
    let mut at: usize = from;
    while at < chars.len() && is_whitespace(chars[at]) != want_blank
        invariant
            from <= at <= chars@.len(),
            tail == chars@.skip(from as int),
            p == if want_blank {
                blank()
            } else {
                inked()
            },
            forall|i: int| 0 <= i < at - from ==> !p(#[trigger] tail[i]),
        decreases chars@.len() - at,
    {
        at = at + 1;
    }
    proof {
        lemma_first_where_is(tail, p, at - from);
    }
    at
}

/// The length of the first line of `chars`, or `None` where there is no text.
pub fn first_line_len(chars: &[char]) -> (len: Option<usize>)
    ensures
        len is Some <==> chars@.len() > 0,
        len matches Some(n) ==> n == line_len(chars@) && n <= chars@.len() && line_of(chars@)
            == Some(chars@.take(n as int)),
        len is None ==> line_of(chars@) is None,
{
    if chars.len() == 0 {
        return None;
    }
    let mut end: usize = 0;
    while end < chars.len() && chars[end] != '\n'
        invariant
            end <= chars@.len(),
            forall|i: int| 0 <= i < end ==> !newline()(#[trigger] chars@[i]),
        decreases chars@.len() - end,
    {
        end = end + 1;
    }
    proof {
        lemma_first_where_is(chars@, newline(), end as int);
    }
    if 0 < end && end < chars.len() && chars[end - 1] == '\r' {
        Some(end - 1)
    } else {
        Some(end)
    }
}

/// Splits `line` at white space and returns where each word begins and ends.
pub fn word_spans(line: &[char]) -> (spans: Vec<(usize, usize)>)
    ensures
        spans_of(line@, spans@) == words_of(line@),
        forall|k: int|
            0 <= k < spans@.len() ==> (#[trigger] spans@[k]).0 < spans@[k].1 <= line@.len(),
{
    let mut spans: Vec<(usize, usize)> = Vec::new();
    let mut at: usize = 0;
    proof {
        assert(line@.skip(0) == line@);
        assert(spans_of(line@, spans@) + words_of(line@) == words_of(line@));
    }
    loop
        invariant
            at <= line@.len(),
            words_of(line@) == spans_of(line@, spans@) + words_of(line@.skip(at as int)),
            forall|k: int|
                0 <= k < spans@.len() ==> (#[trigger] spans@[k]).0 < spans@[k].1 <= line@.len(),
        ensures
            spans_of(line@, spans@) == words_of(line@),
        decreases line@.len() - at,
    {
        let ghost tail = line@.skip(at as int);
        let begin: usize = find(line, at, false);
        if begin >= line.len() {
            assert(words_of(tail) == Seq::<Seq<char>>::empty());
            break ;
        }
        let end: usize = find(line, begin, true);
        proof {
            let rest = tail.skip(begin - at);
            assert(rest == line@.skip(begin as int));
            lemma_first_where(tail, inked());
            lemma_first_where(rest, blank());
            assert(rest.take(end - begin) == line@.subrange(begin as int, end as int));
            assert(rest.skip(end - begin) == line@.skip(end as int));
            lemma_spans_push(line@, spans@, (begin, end));
        }
        spans.push((begin, end));
        at = end;
    }
    spans
}

/// Whether no character of `s` is white space.
pub open spec fn is_solid(s: Seq<char>) -> bool {
    forall|i: int| 0 <= i < s.len() ==> !is_whitespace(#[trigger] s[i])
}

/// A line followed by a line feed is the first line of the text, whatever
/// comes after, provided the line itself holds no line feed. A carriage
/// return directly before the line feed belongs to the line ending.
pub proof fn lemma_first_line(line: Seq<char>, rest: Seq<char>)
    requires
        forall|i: int| 0 <= i < line.len() ==> #[trigger] line[i] != '\n',
    ensures
        line_of(line + seq!['\n'] + rest) == Some(
            if line.len() > 0 && line.last() == '\r' {
                line.drop_last()
            } else {
                line
            },
        ),
{
    let text = line + seq!['\n'] + rest;
    let end = line.len() as int;
    assert(text[end] == '\n');
    assert forall|i: int| 0 <= i < end implies !newline()(#[trigger] text[i]) by {
        assert(text[i] == line[i]);
    }
    lemma_first_where_is(text, newline(), end);
    if line.len() > 0 {
        assert(text[end - 1] == line.last());
    }
    if line.len() > 0 && line.last() == '\r' {
        assert(text.take(end - 1) =~= line.drop_last());
    } else {
        assert(text.take(end) =~= line);
    }
}

/// Text without a line feed is its own first line, unless it is empty.
pub proof fn lemma_single_line(text: Seq<char>)
    requires
        forall|i: int| 0 <= i < text.len() ==> #[trigger] text[i] != '\n',
    ensures
        line_of(text) == if text.len() == 0 {
            None
        } else {
            Some(text)
        },
{
    assert forall|i: int| 0 <= i < text.len() implies !newline()(#[trigger] text[i]) by {}
    lemma_first_where_is(text, newline(), text.len() as int);
    assert(text.take(text.len() as int) =~= text);
}

/// White space at the head of a text adds no word.
pub proof fn lemma_words_after_blank(c: char, tail: Seq<char>)
    requires
        is_whitespace(c),
    ensures
        words_of(seq![c] + tail) == words_of(tail),
{
    let s = seq![c] + tail;
    assert(s.drop_first() =~= tail);
    assert(!inked()(s[0]));
    let a = first_where(tail, inked());
    assert(first_where(s, inked()) == 1 + a);
    lemma_first_where(tail, inked());
    if a < tail.len() {
        assert(s.skip(1 + a as int) =~= tail.skip(a as int));
    }
}

/// A run of characters without white space, followed by white space or by
/// nothing, is the first word, and the words of what follows come after it.
pub proof fn lemma_words_after_word(word: Seq<char>, tail: Seq<char>)
    requires
        word.len() > 0,
        is_solid(word),
        tail.len() > 0 ==> is_whitespace(tail[0]),
    ensures
        words_of(word + tail) == seq![word] + words_of(tail),
{
    let s = word + tail;
    assert(s[0] == word[0]);
    assert(inked()(s[0]));
    lemma_first_where_is(s, inked(), 0);
    assert(s.skip(0) =~= s);
    let n = word.len() as int;
    assert forall|i: int| 0 <= i < n implies !blank()(#[trigger] s[i]) by {
        assert(s[i] == word[i]);
    }
    if n < s.len() {
        assert(s[n] == tail[0]);
    }
    lemma_first_where_is(s, blank(), n);
    assert(s.take(n) =~= word);
    assert(s.skip(n) =~= tail);
}

/// Every word holds at least one character and no white space.
pub proof fn lemma_words_are_solid(s: Seq<char>)
    ensures
        forall|k: int|
            0 <= k < words_of(s).len() ==> (#[trigger] words_of(s)[k]).len() > 0 && is_solid(
                words_of(s)[k],
            ),
    decreases s.len(),
{
    let start = first_where(s, inked());
    if start < s.len() {
        let rest = s.skip(start as int);
        let len = first_where(rest, blank());
        lemma_first_where(s, inked());
        lemma_first_where(rest, blank());
        let word = rest.take(len as int);
        let tail = rest.skip(len as int);
        lemma_words_are_solid(tail);
        assert(inked()(rest[0]));
        assert(len > 0) by {
            if len == 0 {
                assert(blank()(rest[0]));
            }
        }
        assert forall|i: int| 0 <= i < word.len() implies !is_whitespace(#[trigger] word[i]) by {
            assert(!blank()(rest[i]));
        }
        assert forall|k: int| 0 <= k < words_of(s).len() implies (#[trigger] words_of(s)[k]).len()
            > 0 && is_solid(words_of(s)[k]) by {
            if k > 0 {
                assert(words_of(s)[k] == words_of(tail)[k - 1]);
            }
        }
    }
}

} // verus!
