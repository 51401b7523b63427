//! Bytes of ASCII text, and comparisons of byte strings.

use vstd::prelude::*;
use vstd::string::{is_ascii, StringSliceAdditionalSpecFns};
use vstd::utf8::encode_utf8;

verus! {

/// The bytes that stand for `text` when every character of it is ASCII: one
/// byte per character, with the character's code.
pub open spec fn ascii(text: Seq<char>) -> Seq<u8> {
    Seq::new(text.len(), |i: int| text[i] as u8)
}

/// Appends the bytes of `text` to `out`: its UTF-8 encoding, which for ASCII
/// text is one byte per character.
pub fn push_text(out: &mut Vec<u8>, text: &str)
    ensures
        final(out)@ == old(out)@ + encode_utf8(text@),
        is_ascii(text) ==> final(out)@ == old(out)@ + ascii(text@),
{
    broadcast use vstd::string::is_ascii_spec_bytes;

    out.extend_from_slice(text.as_bytes());
    assert(out@ =~= old(out)@ + encode_utf8(text@));
    proof {
        if is_ascii(text) {
            assert(out@ =~= old(out)@ + ascii(text@));
        }
    }
}

/// Tells whether two byte strings hold the same bytes.
pub fn same_bytes(a: &[u8], b: &[u8]) -> (same: bool)
    ensures
        same == (a@ == b@),
{
    if a.len() != b.len() {
        return false;
    }
    let mut i: usize = 0;
    while i < a.len()
        invariant
            i <= a@.len(),
            a@.len() == b@.len(),
            forall|k: int| 0 <= k < i ==> a@[k] == b@[k],
        decreases a@.len() - i,
    {
        if a[i] != b[i] {
            return false;
        }
        i = i + 1;
    }
    assert(a@ =~= b@);
    true
}

/// Tells whether `bytes` ends with `suffix`.
pub fn ends_with(bytes: &[u8], suffix: &[u8]) -> (found: bool)
    ensures
        found == suffix@.is_suffix_of(bytes@),
{
    if suffix.len() > bytes.len() {
        return false;
    }
    let start: usize = bytes.len() - suffix.len();
    same_bytes(&bytes[start..bytes.len()], suffix)
}

} // verus!
