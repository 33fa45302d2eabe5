//! Finding the first entry of a sequence that carries a given key.

use vstd::prelude::*;

verus! {

/// `i` is the least index at which `keys` holds `k`.
pub open spec fn is_first<K>(keys: Seq<K>, k: K, i: int) -> bool {
    &&& 0 <= i < keys.len()
    &&& keys[i] == k
    &&& forall|j: int| 0 <= j < i ==> keys[j] != k
}

/// The least index at which `keys` holds `k`, if it holds it at all.
pub open spec fn first_index<K>(keys: Seq<K>, k: K) -> Option<int> {
    if exists|i: int| is_first(keys, k, i) {
        Some(choose|i: int| is_first(keys, k, i))
    } else {
        None
    }
}

/// How often `keys` holds `k`.
pub open spec fn occurrences<K>(keys: Seq<K>, k: K) -> nat
    decreases keys.len(),
{
    if keys.len() == 0 {
        0
    } else if keys.last() == k {
        occurrences(keys.drop_last(), k) + 1
    } else {
        occurrences(keys.drop_last(), k)
    }
}

/// An index known to be the first occurrence is what `first_index` names.
pub proof fn lemma_first_index_is<K>(keys: Seq<K>, k: K, i: int)
    requires
        is_first(keys, k, i),
    ensures
        first_index(keys, k) == Some(i),
{
    let c = choose|c: int| is_first(keys, k, c);
    assert(is_first(keys, k, c));
    if c < i {
        assert(keys[c] != k);
    } else if i < c {
        assert(keys[i] != k);
    }
}

/// A key that occurs at `at` has a first occurrence at or before `at`.
proof fn lemma_has_first<K>(keys: Seq<K>, k: K, at: int)
    requires
        0 <= at < keys.len(),
        keys[at] == k,
    ensures
        exists|i: int| is_first(keys, k, i) && i <= at,
    decreases at,
{
    if forall|j: int| 0 <= j < at ==> keys[j] != k {
        assert(is_first(keys, k, at));
    } else {
        let j = choose|j: int| 0 <= j < at && keys[j] == k;
        lemma_has_first(keys, k, j);
    }
}

/// What `first_index` says of the sequence: a result points at the first
/// occurrence, and no result means the key occurs nowhere.
pub proof fn lemma_first_index<K>(keys: Seq<K>, k: K)
    ensures
        match first_index(keys, k) {
            Some(i) => is_first(keys, k, i),
            None => forall|j: int| 0 <= j < keys.len() ==> keys[j] != k,
        },
{
    if first_index(keys, k) is None {
        assert forall|j: int| 0 <= j < keys.len() implies keys[j] != k by {
            if keys[j] == k {
                lemma_has_first(keys, k, j);
            }
        }
    }
}

/// A key that occurs nowhere has no first index.
pub proof fn lemma_first_index_none<K>(keys: Seq<K>, k: K)
    requires
        forall|j: int| 0 <= j < keys.len() ==> keys[j] != k,
    ensures
        first_index(keys, k) is None,
{
}

} // verus!
