//! First-match search in sequences.

use vstd::prelude::*;

verus! {

/// The index of the first element of `s` that satisfies `p`, or `s.len()` when
/// no element does.
pub open spec fn first_index<T>(s: Seq<T>, p: spec_fn(T) -> bool) -> int
    decreases s.len(),
{
    if s.len() == 0 {
        0
    } else if p(s[0]) {
        0
    } else {
        1 + first_index(s.drop_first(), p)
    }
}

/// `first_index` lies within the sequence or at its end, stops at an element
/// that satisfies `p`, and passes only elements that do not.
pub proof fn lemma_first_index<T>(s: Seq<T>, p: spec_fn(T) -> bool)
    ensures
        0 <= first_index(s, p) <= s.len(),
        first_index(s, p) < s.len() ==> p(s[first_index(s, p)]),
        forall|j: int| 0 <= j < first_index(s, p) ==> !p(#[trigger] s[j]),
    decreases s.len(),
{
    if s.len() > 0 && !p(s[0]) {
        let tail = s.drop_first();
        lemma_first_index(tail, p);
        assert forall|j: int| 0 <= j < first_index(s, p) implies !p(#[trigger] s[j]) by {
            if j > 0 {
                assert(s[j] == tail[j - 1]);
            }
        }
    }
}

/// An index that stops at a match (or at the end) and has passed no match is
/// the first index.
pub proof fn lemma_first_index_is<T>(s: Seq<T>, p: spec_fn(T) -> bool, i: int)
    requires
        0 <= i <= s.len(),
        i < s.len() ==> p(s[i]),
        forall|j: int| 0 <= j < i ==> !p(#[trigger] s[j]),
    ensures
        first_index(s, p) == i,
    decreases s.len(),
{
    if s.len() > 0 && i > 0 {
        let tail = s.drop_first();
        assert(!p(s[0]));
        assert forall|j: int| 0 <= j < i - 1 implies !p(#[trigger] tail[j]) by {
            assert(tail[j] == s[j + 1]);
        }
        lemma_first_index_is(tail, p, i - 1);
    }
}

/// Two sequences of one length whose elements agree on `p` have the same
/// first index.
pub proof fn lemma_first_index_congruent<T>(s: Seq<T>, t: Seq<T>, p: spec_fn(T) -> bool)
    requires
        s.len() == t.len(),
        forall|j: int| 0 <= j < s.len() ==> p(#[trigger] s[j]) == p(t[j]),
    ensures
        first_index(s, p) == first_index(t, p),
{
    lemma_first_index(s, p);
    let i = first_index(s, p);
    assert forall|j: int| 0 <= j < i implies !p(#[trigger] t[j]) by {
        assert(!p(s[j]));
    }
    lemma_first_index_is(t, p, i);
}

/// Appending an element moves the first index only when nothing matched
/// before.
pub proof fn lemma_first_index_push<T>(s: Seq<T>, x: T, p: spec_fn(T) -> bool)
    ensures
        first_index(s.push(x), p) == if first_index(s, p) < s.len() || p(x) {
            first_index(s, p)
        } else {
            s.len() + 1int
        },
{
    lemma_first_index(s, p);
    let t = s.push(x);
    let i = first_index(s, p);
    let k = if i < s.len() || p(x) {
        i
    } else {
        s.len() + 1int
    };
    assert forall|j: int| 0 <= j < k implies !p(#[trigger] t[j]) by {
        if j < s.len() {
            assert(t[j] == s[j]);
        }
    }
    lemma_first_index_is(t, p, k);
}

} // verus!
