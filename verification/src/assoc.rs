//! Association sequences.
//!
//! Every table of the store is modelled as a sequence of entries in which
//! at most one entry matches a given key. These helpers define the first
//! match of a predicate in a sequence and the insert-or-replace step that
//! the write path uses, together with the lemmas the tracker's proofs
//! rest on.

use vstd::prelude::*;

verus! {

/// The index of the first element satisfying `p`, if any.
pub open spec fn seq_find_index<T>(s: Seq<T>, p: spec_fn(T) -> bool) -> Option<int>
    decreases s.len(),
{
    if s.len() == 0 {
        None
    } else if p(s[0]) {
        Some(0int)
    } else {
        match seq_find_index(s.drop_first(), p) {
            None => None,
            Some(i) => Some(i + 1),
        }
    }
}

/// The first element satisfying `p`, if any.
pub open spec fn seq_find<T>(s: Seq<T>, p: spec_fn(T) -> bool) -> Option<T> {
    match seq_find_index(s, p) {
        None => None,
        Some(i) => Some(s[i]),
    }
}

/// Insert-or-replace: replaces the first element satisfying `p` with `e`,
/// or appends `e` when no element does.
pub open spec fn seq_upsert<T>(s: Seq<T>, p: spec_fn(T) -> bool, e: T) -> Seq<T> {
    match seq_find_index(s, p) {
        Some(i) => s.update(i, e),
        None => s.push(e),
    }
}

/// What the first-match index means: it is a match, nothing before it is,
/// and when there is none nothing matches at all.
pub proof fn lemma_seq_find_index_props<T>(s: Seq<T>, p: spec_fn(T) -> bool)
    ensures
        match seq_find_index(s, p) {
            None => forall|j: int| 0 <= j < s.len() ==> !p(s[j]),
            Some(i) => 0 <= i < s.len() && p(s[i]) && forall|j: int| 0 <= j < i ==> !p(s[j]),
        },
    decreases s.len(),
{
    if s.len() > 0 && !p(s[0]) {
        let s1 = s.drop_first();
        lemma_seq_find_index_props(s1, p);
        match seq_find_index(s1, p) {
            None => {
                assert forall|j: int| 0 <= j < s.len() implies !p(s[j]) by {
                    if j > 0 {
                        assert(s[j] == s1[j - 1]);
                        assert(!p(s1[j - 1]));
                    }
                }
            },
            Some(i) => {
                assert(p(s1[i]) && s[i + 1] == s1[i]);
                assert forall|j: int| 0 <= j < i + 1 implies !p(s[j]) by {
                    if j > 0 {
                        assert(s[j] == s1[j - 1]);
                        assert(!p(s1[j - 1]));
                    }
                }
            },
        }
    }
}

/// A match whose prefix is clean is the first match.
pub proof fn lemma_seq_find_index_is<T>(s: Seq<T>, p: spec_fn(T) -> bool, i: int)
    requires
        0 <= i < s.len(),
        p(s[i]),
        forall|j: int| 0 <= j < i ==> !p(s[j]),
    ensures
        seq_find_index(s, p) == Some(i),
    decreases i,
{
    if i > 0 {
        let s1 = s.drop_first();
        assert(forall|j: int| 0 <= j < s1.len() ==> s1[j] == s[j + 1]);
        lemma_seq_find_index_is(s1, p, i - 1);
    }
}

/// When nothing matches, there is no first match.
pub proof fn lemma_seq_find_index_none<T>(s: Seq<T>, p: spec_fn(T) -> bool)
    requires
        forall|j: int| 0 <= j < s.len() ==> !p(s[j]),
    ensures
        seq_find_index(s, p) == None::<int>,
{
    lemma_seq_find_index_props(s, p);
    if seq_find_index(s, p) is Some {
        assert(false);
    }
}

/// After an upsert of `e` under its own key, the key finds `e`.
pub proof fn lemma_find_upsert_same<T>(s: Seq<T>, p: spec_fn(T) -> bool, e: T)
    requires
        p(e),
    ensures
        seq_find(seq_upsert(s, p, e), p) == Some(e),
{
    lemma_seq_find_index_props(s, p);
    match seq_find_index(s, p) {
        Some(i) => {
            let s2 = s.update(i, e);
            assert(forall|j: int| 0 <= j < i ==> s2[j] == s[j]);
            lemma_seq_find_index_is(s2, p, i);
        },
        None => {
            let s2 = s.push(e);
            assert(forall|j: int| 0 <= j < s.len() ==> s2[j] == s[j]);
            lemma_seq_find_index_is(s2, p, s.len() as int);
        },
    }
}

/// An upsert under one key does not disturb what another key finds, as
/// long as no element can match both keys.
pub proof fn lemma_find_upsert_other<T>(s: Seq<T>, p: spec_fn(T) -> bool, q: spec_fn(T) -> bool, e: T)
    requires
        !q(e),
        forall|x: T| #[trigger] p(x) ==> !q(x),
    ensures
        seq_find(seq_upsert(s, p, e), q) == seq_find(s, q),
{
    lemma_seq_find_index_props(s, p);
    lemma_seq_find_index_props(s, q);
    match seq_find_index(s, p) {
        Some(i) => {
            let s2 = s.update(i, e);
            assert(!q(s[i]));
            match seq_find_index(s, q) {
                Some(k) => {
                    assert(k != i);
                    assert(q(s2[k]));
                    assert(forall|j: int| 0 <= j < k ==> s2[j] == if j == i { e } else { s[j] });
                    lemma_seq_find_index_is(s2, q, k);
                },
                None => {
                    assert(forall|j: int| 0 <= j < s2.len() ==> !q(s2[j]));
                    lemma_seq_find_index_none(s2, q);
                },
            }
        },
        None => {
            let s2 = s.push(e);
            match seq_find_index(s, q) {
                Some(k) => {
                    assert(q(s2[k]));
                    assert(forall|j: int| 0 <= j < k ==> s2[j] == s[j]);
                    lemma_seq_find_index_is(s2, q, k);
                },
                None => {
                    assert(forall|j: int| 0 <= j < s2.len() ==> !q(s2[j]));
                    lemma_seq_find_index_none(s2, q);
                },
            }
        },
    }
}

} // verus!
