//! Paths as byte strings: their components, and containment beneath a root.
//!
//! A path is read as POSIX reads it. Slashes separate its pieces; empty pieces
//! and pieces that are a single dot count for nothing, except that a leading
//! slash marks the path as absolute and a leading dot piece marks it as
//! beginning in the current directory.

use vstd::prelude::*;
use crate::bytes::same_bytes;
use crate::scan::{first_where, lemma_first_where, lemma_first_where_is, lemma_spans_push, spans_of};

verus! {

/// The separator of path components.
pub const SLASH: u8 = 0x2f;

/// The byte of which the current-directory and parent-directory pieces are made.
pub const DOT: u8 = 0x2e;

/// The predicate that holds of the separator alone.
pub open spec fn slash() -> spec_fn(u8) -> bool {
    |b: u8| b == SLASH
}

/// Whether a piece between separators is a name: neither empty nor a single dot.
pub open spec fn is_name(piece: Seq<u8>) -> bool {
    piece.len() > 0 && piece != seq![DOT]
}

/// The names of a path, in order: its pieces between separators, without the
/// pieces that are empty or a single dot.
pub open spec fn names_of(path: Seq<u8>) -> Seq<Seq<u8>>
    decreases path.len(),
{
    let n = first_where(path, slash());
    let head = path.take(n as int);
    let here = if is_name(head) {
        seq![head]
    } else {
        Seq::empty()
    };
    if n >= path.len() {
        here
    } else {
        proof {
            lemma_first_where(path, slash());
        }
        here + names_of(path.skip(n as int + 1))
    }
}

/// The mark at the head of a path's components: a slash where the path is
/// absolute, a dot where its first piece is a single dot, nothing otherwise.
pub open spec fn lead_of(path: Seq<u8>) -> Seq<Seq<u8>> {
    if path.len() > 0 && path[0] == SLASH {
        seq![seq![SLASH]]
    } else if path.take(first_where(path, slash()) as int) == seq![DOT] {
        seq![seq![DOT]]
    } else {
        Seq::empty()
    }
}

/// The components of a path: its leading mark, then its names.
pub open spec fn components_of(path: Seq<u8>) -> Seq<Seq<u8>> {
    lead_of(path) + names_of(path)
}

/// Whether `path` lies at or beneath `root`: the components of `root` are the
/// first components of `path`, one for one. Bytes that merely begin alike do
/// not count: a sibling whose name extends the root's name is outside.
pub open spec fn within(path: Seq<u8>, root: Seq<u8>) -> bool {
    components_of(root).is_prefix_of(components_of(path))
}

/// Whether a component is a mark or the parent-directory piece, not a name of
/// a file or directory.
pub open spec fn is_special(component: Seq<u8>) -> bool {
    component == seq![SLASH] || component == seq![DOT] || component == seq![DOT, DOT]
}

/// The final component of a path where that names a file or directory.
pub open spec fn file_name_of(path: Seq<u8>) -> Option<Seq<u8>> {
    let components = components_of(path);
    if components.len() > 0 && !is_special(components.last()) {
        Some(components.last())
    } else {
        None
    }
}

/// The index of the first separator of `path` at or after `from`, or the
/// length of `path` where none follows.
fn find_slash(path: &[u8], from: usize) -> (at: usize)
    requires
        from <= path@.len(),
    ensures
        from <= at <= path@.len(),
        at == from + first_where(path@.skip(from as int), slash()),
{
    let ghost tail = path@.skip(from as int);
    let mut at: usize = from;
    while at < path.len() && path[at] != SLASH
        invariant
            from <= at <= path@.len(),
            tail == path@.skip(from as int),
            forall|i: int| 0 <= i < at - from ==> !slash()(#[trigger] tail[i]),
        decreases path@.len() - at,
    {
        at = at + 1;
    }
    proof {
        lemma_first_where_is(tail, slash(), at - from);
    }
    at
}

/// Finds the components of `path` and returns where each begins and ends.
pub fn component_spans(path: &[u8]) -> (spans: Vec<(usize, usize)>)
    ensures
        spans_of(path@, spans@) == components_of(path@),
        forall|k: int|
            0 <= k < spans@.len() ==> (#[trigger] spans@[k]).0 <= spans@[k].1 <= path@.len(),
{
    let mut spans: Vec<(usize, usize)> = Vec::new();
    let first: usize = find_slash(path, 0);
    proof {
        assert(path@.skip(0) == path@);
    }
    if path.len() > 0 && (path[0] == SLASH || (first == 1 && path[0] == DOT)) {
        proof {
            lemma_spans_push(path@, spans@, (0usize, 1usize));
            assert(path@.subrange(0, 1) == seq![path@[0]]);
            assert(path@.take(1) == path@.subrange(0, 1));
        }
        spans.push((0, 1));
    }
    assert(spans_of(path@, spans@) == lead_of(path@)) by {
        if path@.len() > 0 && path@[0] != SLASH && first != 1 {
            assert(path@.take(first as int).len() != 1);
        }
        if path@.len() > 0 && path@[0] != SLASH && first == 1 && path@[0] != DOT {
            assert(path@.take(1)[0] != DOT);
        }
        if path@.len() == 0 {
            assert(path@.take(first as int).len() == 0);
        }
    }
    let mut start: usize = 0;
    loop
        invariant_except_break
            components_of(path@) == spans_of(path@, spans@) + names_of(path@.skip(start as int)),
        invariant
            start <= path@.len(),
            forall|k: int|
                0 <= k < spans@.len() ==> (#[trigger] spans@[k]).0 <= spans@[k].1 <= path@.len(),
        ensures
            spans_of(path@, spans@) == components_of(path@),
        decreases path@.len() - start,
    {
        let ghost tail = path@.skip(start as int);
        let ghost before = spans_of(path@, spans@);
        let end: usize = find_slash(path, start);
        proof {
            assert(tail.take(end - start) == path@.subrange(start as int, end as int));
        }
        if end > start && !(end - start == 1 && path[start] == DOT) {
            proof {
                lemma_spans_push(path@, spans@, (start, end));
                assert(is_name(tail.take(end - start))) by {
                    if end - start == 1 {
                        assert(tail.take(end - start)[0] != DOT);
                    }
                }
            }
            spans.push((start, end));
        } else {
            proof {
                assert(!is_name(tail.take(end - start))) by {
                    if end > start {
                        assert(tail.take(end - start) =~= seq![DOT]);
                    }
                }
            }
        }
        if end >= path.len() {
            proof {
                assert(components_of(path@) =~= spans_of(path@, spans@));
            }
            break ;
        }
        proof {
            assert(tail.skip(end - start + 1) == path@.skip(end + 1));
            assert(components_of(path@) =~= spans_of(path@, spans@) + names_of(
                path@.skip(end + 1),
            ));
        }
        start = end + 1;
    }
    spans
}

/// Tells whether `path` lies at or beneath `root`, component by component.
pub fn is_within(path: &[u8], root: &[u8]) -> (inside: bool)
    ensures
        inside == within(path@, root@),
{
    let ours = component_spans(path);
    let theirs = component_spans(root);
    if theirs.len() > ours.len() {
        return false;
    }
    let ghost have = components_of(path@);
    let ghost want = components_of(root@);
    let mut i: usize = 0;
    while i < theirs.len()
        invariant
            i <= theirs@.len() <= ours@.len(),
            have == components_of(path@),
            want == components_of(root@),
            spans_of(path@, ours@) == have,
            spans_of(root@, theirs@) == want,
            forall|k: int|
                0 <= k < ours@.len() ==> (#[trigger] ours@[k]).0 <= ours@[k].1 <= path@.len(),
            forall|k: int|
                0 <= k < theirs@.len() ==> (#[trigger] theirs@[k]).0 <= theirs@[k].1
                    <= root@.len(),
            forall|k: int| 0 <= k < i ==> want[k] == have[k],
        decreases theirs@.len() - i,
    {
        let a = ours[i];
        let b = theirs[i];
        if !same_bytes(&path[a.0..a.1], &root[b.0..b.1]) {
            proof {
                assert(have[i as int] == path@.subrange(a.0 as int, a.1 as int));
                assert(want[i as int] == root@.subrange(b.0 as int, b.1 as int));
                assert(have.subrange(0, want.len() as int)[i as int] == have[i as int]);
            }
            return false;
        }
        proof {
            assert(have[i as int] == path@.subrange(a.0 as int, a.1 as int));
            assert(want[i as int] == root@.subrange(b.0 as int, b.1 as int));
        }
        i = i + 1;
    }
    proof {
        assert(want =~= have.subrange(0, want.len() as int));
    }
    true
}

/// Returns the final component of `path` where that names a file or directory.
pub fn file_name(path: &[u8]) -> (name: Option<Vec<u8>>)
    ensures
        name is Some <==> file_name_of(path@) is Some,
        name matches Some(bytes) ==> file_name_of(path@) == Some(bytes@),
{
    let spans = component_spans(path);
    if spans.len() == 0 {
        return None;
    }
    let last = spans[spans.len() - 1];
    let piece: &[u8] = &path[last.0..last.1];
    proof {
        assert(components_of(path@).last() == piece@);
    }
    let len: usize = piece.len();
    let special: bool = (len == 1 && (piece[0] == SLASH || piece[0] == DOT)) || (len == 2
        && piece[0] == DOT && piece[1] == DOT);
    proof {
        if special {
            if len == 1 {
                assert(piece@ =~= seq![piece@[0]]);
            } else {
                assert(piece@ =~= seq![DOT, DOT]);
            }
        } else {
            if len == 1 {
                assert(piece@[0] != SLASH && piece@[0] != DOT);
            } else if len == 2 {
                assert(piece@[0] != DOT || piece@[1] != DOT);
            }
        }
    }
    if special {
        None
    } else {
        Some(vstd::slice::slice_to_vec(piece))
    }
}

/// Whether `bytes` holds no separator.
pub open spec fn is_piece(bytes: Seq<u8>) -> bool {
    forall|i: int| 0 <= i < bytes.len() ==> #[trigger] bytes[i] != SLASH
}

/// Every path lies within itself.
pub proof fn lemma_within_itself(path: Seq<u8>)
    ensures
        within(path, path),
{
    let components = components_of(path);
    assert(components =~= components.subrange(0, components.len() as int));
}

/// What lies within a directory lies within every directory that the
/// directory lies within.
pub proof fn lemma_within_is_transitive(inner: Seq<u8>, middle: Seq<u8>, outer: Seq<u8>)
    requires
        within(inner, middle),
        within(middle, outer),
    ensures
        within(inner, outer),
{
    let a = components_of(inner);
    let b = components_of(middle);
    let c = components_of(outer);
    assert(c =~= a.subrange(0, c.len() as int)) by {
        assert forall|i: int| 0 <= i < c.len() implies c[i] == a[i] by {
            assert(c[i] == b.subrange(0, c.len() as int)[i]);
            assert(b[i] == a.subrange(0, b.len() as int)[i]);
        }
    }
}

/// The first separator of a path is found in any prefix that holds one.
proof fn lemma_first_slash_in_prefix(front: Seq<u8>, back: Seq<u8>)
    requires
        first_where(front, slash()) < front.len(),
    ensures
        first_where(front + back, slash()) == first_where(front, slash()),
{
    let n = first_where(front, slash()) as int;
    lemma_first_where(front, slash());
    assert forall|i: int| 0 <= i < n implies !slash()(#[trigger] (front + back)[i]) by {
        assert((front + back)[i] == front[i]);
    }
    assert((front + back)[n] == front[n]);
    lemma_first_where_is(front + back, slash(), n);
}

/// A single piece that is a name is the one name of the path it makes.
pub proof fn lemma_names_of_piece(piece: Seq<u8>)
    requires
        is_piece(piece),
    ensures
        names_of(piece) == if is_name(piece) {
            seq![piece]
        } else {
            Seq::empty()
        },
{
    assert forall|i: int| 0 <= i < piece.len() implies !slash()(#[trigger] piece[i]) by {}
    lemma_first_where_is(piece, slash(), piece.len() as int);
    assert(piece.take(piece.len() as int) =~= piece);
}

/// The names of two paths joined by a separator are the names of the first,
/// then the names of the second.
pub proof fn lemma_names_join(front: Seq<u8>, back: Seq<u8>)
    ensures
        names_of(front + seq![SLASH] + back) == names_of(front) + names_of(back),
    decreases front.len(),
{
    let joined = front + seq![SLASH] + back;
    let n = first_where(front, slash());
    lemma_first_where(front, slash());
    let here = if is_name(front.take(n as int)) {
        seq![front.take(n as int)]
    } else {
        Seq::empty()
    };
    if n >= front.len() {
        assert forall|i: int| 0 <= i < front.len() implies !slash()(#[trigger] joined[i]) by {
            assert(joined[i] == front[i]);
        }
        assert(joined[front.len() as int] == SLASH);
        lemma_first_where_is(joined, slash(), front.len() as int);
        assert(joined.take(n as int) =~= front.take(n as int));
        assert(joined.skip(n as int + 1) =~= back);
        assert(names_of(front) == here);
    } else {
        assert(joined =~= front + (seq![SLASH] + back));
        lemma_first_slash_in_prefix(front, seq![SLASH] + back);
        assert(joined.take(n as int) =~= front.take(n as int));
        let tail = front.skip(n as int + 1);
        assert(joined.skip(n as int + 1) =~= tail + seq![SLASH] + back);
        lemma_names_join(tail, back);
        assert(here + (names_of(tail) + names_of(back)) =~= (here + names_of(tail)) + names_of(
            back,
        ));
    }
}

/// Joining a path onto a root with a separator stays within the root, as far
/// as components go: the root's components come first. This holds of paths
/// with parent-directory pieces too, which is why containment is decided on
/// canonical paths only.
pub proof fn lemma_joined_is_within(root: Seq<u8>, relative: Seq<u8>)
    requires
        root.len() > 0,
    ensures
        within(root + seq![SLASH] + relative, root),
        components_of(root + seq![SLASH] + relative) == components_of(root) + names_of(relative),
{
    let joined = root + seq![SLASH] + relative;
    lemma_names_join(root, relative);
    assert(joined[0] == root[0]);
    assert(lead_of(joined) == lead_of(root)) by {
        if root[0] != SLASH {
            let n = first_where(root, slash());
            lemma_first_where(root, slash());
            if n < root.len() {
                assert(joined =~= root + (seq![SLASH] + relative));
                lemma_first_slash_in_prefix(root, seq![SLASH] + relative);
            } else {
                assert forall|i: int| 0 <= i < root.len() implies !slash()(
                    #[trigger] joined[i],
                ) by {
                    assert(joined[i] == root[i]);
                }
                assert(joined[root.len() as int] == SLASH);
                lemma_first_where_is(joined, slash(), root.len() as int);
            }
            assert(joined.take(n as int) =~= root.take(n as int));
        }
    }
    assert(components_of(joined) =~= components_of(root) + names_of(relative));
    assert(components_of(root) =~= components_of(joined).subrange(
        0,
        components_of(root).len() as int,
    ));
}

/// A sibling is outside. Where the root is the directory `name` in `parent`,
/// a path that merely goes on where the root's bytes end, without a separator
/// between, lies outside the root: its component at that place is a longer
/// name. So `/srv/root2` and `/srv/root-evil/x` are outside `/srv/root`.
pub proof fn lemma_sibling_is_outside(parent: Seq<u8>, name: Seq<u8>, suffix: Seq<u8>)
    requires
        parent.len() == 0 || parent.last() == SLASH,
        is_piece(name),
        is_name(name),
        suffix.len() > 0,
        suffix[0] != SLASH,
    ensures
        !within(parent + name + suffix, parent + name),
{
    let root = parent + name;
    let path = parent + name + suffix;
    let cut = first_where(suffix, slash());
    lemma_first_where(suffix, slash());
    let longer = name + suffix.take(cut as int);
    assert(cut > 0) by {
        if cut == 0 {
            assert(slash()(suffix[0]));
        }
    }
    assert(longer.len() > name.len());
    assert(is_name(longer)) by {
        assert(longer.len() >= 2);
    }
    assert(is_piece(longer)) by {
        assert forall|i: int| 0 <= i < longer.len() implies #[trigger] longer[i] != SLASH by {
            if i >= name.len() {
                assert(!slash()(suffix[i - name.len()]));
            }
        }
    }
    // The names of `name + suffix` begin with the longer name.
    let extended = name + suffix;
    assert(names_of(extended)[0] == longer && names_of(extended).len() >= 1) by {
        if cut < suffix.len() {
            let after = suffix.skip(cut as int + 1);
            assert(extended =~= longer + seq![SLASH] + after);
            lemma_names_join(longer, after);
            lemma_names_of_piece(longer);
        } else {
            assert(extended =~= longer);
            lemma_names_of_piece(longer);
        }
    }
    lemma_names_of_piece(name);
    if parent.len() == 0 {
        assert(root =~= name);
        assert(path =~= extended);
        assert(lead_of(root) =~= Seq::<Seq<u8>>::empty()) by {
            assert forall|i: int| 0 <= i < name.len() implies !slash()(#[trigger] name[i]) by {}
            lemma_first_where_is(name, slash(), name.len() as int);
            assert(name.take(name.len() as int) =~= name);
        }
        assert(lead_of(path) =~= Seq::<Seq<u8>>::empty()) by {
            assert(extended[0] == name[0]);
            let n = first_where(extended, slash());
            lemma_first_where(extended, slash());
            assert(n >= name.len()) by {
                if n < name.len() {
                    assert(extended[n as int] == name[n as int]);
                }
            }
            assert(n > name.len()) by {
                if n == name.len() {
                    assert(extended[n as int] == suffix[0]);
                }
            }
            assert(extended.take(n as int).len() >= 2);
        }
        assert(components_of(root)[0] == name);
        assert(components_of(path)[0] == longer);
        assert(components_of(path).subrange(0, components_of(root).len() as int)[0]
            == components_of(path)[0]);
    } else {
        let above = parent.drop_last();
        assert(parent =~= above + seq![SLASH]);
        assert(root =~= above + seq![SLASH] + name);
        assert(path =~= above + seq![SLASH] + extended);
        lemma_names_join(above, name);
        lemma_names_join(above, extended);
        assert(lead_of(root) == lead_of(path)) by {
            assert(root[0] == path[0]);
            lemma_first_where(parent, slash());
            assert(first_where(parent, slash()) < parent.len()) by {
                if first_where(parent, slash()) >= parent.len() {
                    assert(!slash()(parent[parent.len() - 1]));
                }
            }
            assert(root =~= parent + name);
            assert(path =~= parent + extended);
            lemma_first_slash_in_prefix(parent, name);
            lemma_first_slash_in_prefix(parent, extended);
            let n = first_where(parent, slash()) as int;
            assert(root.take(n) =~= path.take(n));
        }
        let at = lead_of(root).len() + names_of(above).len();
        assert(components_of(root) =~= lead_of(root) + names_of(above) + seq![name]);
        assert(components_of(root)[at as int] == name);
        assert(components_of(path) =~= lead_of(root) + names_of(above) + names_of(extended));
        assert(components_of(path)[at as int] == longer);
        if components_of(root).len() <= components_of(path).len() {
            assert(components_of(path).subrange(0, components_of(root).len() as int)[at as int]
                == longer);
        }
    }
}

/// The file name of a path that ends in a separator and a name is that name.
pub proof fn lemma_file_name_of_joined(parent: Seq<u8>, name: Seq<u8>)
    requires
        is_piece(name),
        is_name(name),
        name != seq![DOT, DOT],
    ensures
        file_name_of(parent + seq![SLASH] + name) == Some(name),
{
    let path = parent + seq![SLASH] + name;
    lemma_names_join(parent, name);
    lemma_names_of_piece(name);
    let components = components_of(path);
    assert(components =~= (lead_of(path) + names_of(parent)).push(name));
    assert(components.last() == name);
    assert(name[0] != SLASH);
    assert(name != seq![SLASH]) by {
        if name == seq![SLASH] {
            assert(seq![SLASH][0] == SLASH);
        }
    }
}

} // verus!
