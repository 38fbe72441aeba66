//! Sequences of key/value entries with distinct keys, used as maps.

use vstd::prelude::*;

verus! {

/// Entry `i` has key `k`.
pub open spec fn keyed_at<K, V>(s: Seq<(K, V)>, k: K, i: int) -> bool {
    0 <= i < s.len() && s[i].0 == k
}

/// No two entries have the same key.
pub open spec fn keys_unique<K, V>(s: Seq<(K, V)>) -> bool {
    forall|i: int, j: int| 0 <= i < j < s.len() ==> (#[trigger] s[i]).0 != (#[trigger] s[j]).0
}

/// The value stored under `k`, if any.
pub open spec fn lookup<K, V>(s: Seq<(K, V)>, k: K) -> Option<V> {
    if exists|i: int| keyed_at(s, k, i) {
        Some(s[choose|i: int| keyed_at(s, k, i)].1)
    } else {
        None
    }
}

/// With distinct keys, the value under the key of entry `i` is its value.
pub proof fn lemma_lookup_at<K, V>(s: Seq<(K, V)>, i: int)
    requires
        0 <= i < s.len(),
        keys_unique(s),
    ensures
        lookup(s, s[i].0) == Some(s[i].1),
{
    assert(keyed_at(s, s[i].0, i));
    let c = choose|c: int| keyed_at(s, s[i].0, c);
    if c != i {
        if c < i {
            assert(s[c].0 != s[i].0);
        } else {
            assert(s[i].0 != s[c].0);
        }
    }
}

/// Replacing the value of entry `i` changes only the value under its key.
pub proof fn lemma_lookup_update<K, V>(before: Seq<(K, V)>, after: Seq<(K, V)>, i: int)
    requires
        0 <= i < before.len(),
        keys_unique(before),
        after.len() == before.len(),
        after[i].0 == before[i].0,
        forall|j: int| 0 <= j < before.len() && j != i ==> after[j] == before[j],
    ensures
        keys_unique(after),
        lookup(after, before[i].0) == Some(after[i].1),
        forall|k: K| k != before[i].0 ==> lookup(after, k) == lookup(before, k),
{
    assert forall|a: int, b: int| 0 <= a < b < after.len() implies (#[trigger] after[a]).0 != (#[trigger] after[b]).0 by {
        assert(before[a].0 != before[b].0);
        if a != i {
            assert(after[a] == before[a]);
        }
        if b != i {
            assert(after[b] == before[b]);
        }
    }
    lemma_lookup_at(after, i);
    assert forall|k: K| k != before[i].0 implies lookup(after, k) == lookup(before, k) by {
        if exists|j: int| keyed_at(before, k, j) {
            let j = choose|j: int| keyed_at(before, k, j);
            assert(after[j] == before[j]);
            lemma_lookup_at(before, j);
            lemma_lookup_at(after, j);
        }
        if exists|j: int| keyed_at(after, k, j) {
            let j = choose|j: int| keyed_at(after, k, j);
            assert(after[j] == before[j]);
            assert(keyed_at(before, k, j));
        }
    }
}

/// Appending an entry with a new key adds exactly that key.
pub proof fn lemma_lookup_push<K, V>(before: Seq<(K, V)>, e: (K, V))
    requires
        keys_unique(before),
        forall|j: int| !keyed_at(before, e.0, j),
    ensures
        keys_unique(before.push(e)),
        lookup(before.push(e), e.0) == Some(e.1),
        forall|k: K| k != e.0 ==> lookup(before.push(e), k) == lookup(before, k),
{
    let after = before.push(e);
    let n = before.len() as int;
    assert forall|a: int, b: int| 0 <= a < b < after.len() implies (#[trigger] after[a]).0 != (#[trigger] after[b]).0 by {
        assert(after[a] == before[a]);
        if b < n {
            assert(after[b] == before[b]);
        } else {
            assert(!keyed_at(before, e.0, a));
        }
    }
    lemma_lookup_at(after, n);
    assert forall|k: K| k != e.0 implies lookup(after, k) == lookup(before, k) by {
        if exists|j: int| keyed_at(before, k, j) {
            let j = choose|j: int| keyed_at(before, k, j);
            assert(after[j] == before[j]);
            lemma_lookup_at(before, j);
            lemma_lookup_at(after, j);
        }
        if exists|j: int| keyed_at(after, k, j) {
            let j = choose|j: int| keyed_at(after, k, j);
            assert(j != n);
            assert(after[j] == before[j]);
            assert(keyed_at(before, k, j));
        }
    }
}

} // verus!
