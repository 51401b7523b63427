//! Finding the first element of a sequence that satisfies a predicate.

use vstd::prelude::*;

verus! {

/// The index of the first element of `s` that satisfies `p`, or the length of
/// `s` where none does.
pub open spec fn first_where<T>(s: Seq<T>, p: spec_fn(T) -> bool) -> nat
    decreases s.len(),
{
    if s.len() == 0 || p(s[0]) {
        0
    } else {
        1 + first_where(s.drop_first(), p)
    }
}

/// `first_where` stays within the sequence, skips only elements that fail the
/// predicate, and stops at one that meets it.
pub proof fn lemma_first_where<T>(s: Seq<T>, p: spec_fn(T) -> bool)
    ensures
        first_where(s, p) <= s.len(),
        forall|i: int| 0 <= i < first_where(s, p) ==> !p(#[trigger] s[i]),
        first_where(s, p) < s.len() ==> p(s[first_where(s, p) as int]),
    decreases s.len(),
{
    if s.len() == 0 || p(s[0]) {
    } else {
        let rest = s.drop_first();
        lemma_first_where(rest, p);
        assert forall|i: int| 0 <= i < first_where(s, p) implies !p(#[trigger] s[i]) by {
            if i > 0 {
                assert(s[i] == rest[i - 1]);
            }
        }
    }
}

/// An index that skips only elements failing the predicate, and stands at one
/// that meets it or at the end, is the one `first_where` names.
pub proof fn lemma_first_where_is<T>(s: Seq<T>, p: spec_fn(T) -> bool, k: int)
    requires
        0 <= k <= s.len(),
        forall|i: int| 0 <= i < k ==> !p(#[trigger] s[i]),
        k < s.len() ==> p(s[k]),
    ensures
        first_where(s, p) == k,
{
    lemma_first_where(s, p);
    let f = first_where(s, p) as int;
    if f < k {
        assert(!p(s[f]));
    } else if k < f {
        assert(p(s[k]));
    }
}

/// The stretches of `s` that the index pairs of `spans` mark out: for each
/// pair, the elements from its first index up to, not including, its second.
pub open spec fn spans_of<T>(s: Seq<T>, spans: Seq<(usize, usize)>) -> Seq<Seq<T>> {
    Seq::new(spans.len(), |k: int| s.subrange(spans[k].0 as int, spans[k].1 as int))
}

/// Marking out one more stretch appends it to those marked out before.
pub proof fn lemma_spans_push<T>(s: Seq<T>, spans: Seq<(usize, usize)>, span: (usize, usize))
    ensures
        spans_of(s, spans.push(span)) == spans_of(s, spans).push(
            s.subrange(span.0 as int, span.1 as int),
        ),
{
    assert(spans_of(s, spans.push(span)) =~= spans_of(s, spans).push(
        s.subrange(span.0 as int, span.1 as int),
    ));
}

} // verus!
