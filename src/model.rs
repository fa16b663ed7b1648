//! The mathematical model of a map: the sequence of its entries, in slot order.
use vstd::prelude::*;

use crate::pair::Pair;

verus! {

/// Whether some entry of `s` has key `k`.
pub open spec fn has_key<K, V>(s: Seq<(K, V)>, k: K) -> bool {
    exists|i: int| 0 <= i < s.len() && #[trigger] s[i].0 == k
}

/// The position of the entry with key `k`, where there is one.
pub open spec fn index_of<K, V>(s: Seq<(K, V)>, k: K) -> int {
    choose|i: int| 0 <= i < s.len() && #[trigger] s[i].0 == k
}

/// No two entries of `s` share a key.
pub open spec fn unique_keys<K, V>(s: Seq<(K, V)>) -> bool {
    forall|i: int, j: int| 0 <= i < s.len() && 0 <= j < s.len() && i != j
        ==> #[trigger] s[i].0 != #[trigger] s[j].0
}

/// The value stored under `k`.
pub open spec fn lookup<K, V>(s: Seq<(K, V)>, k: K) -> Option<V> {
    if has_key(s, k) {
        Some(s[index_of(s, k)].1)
    } else {
        None
    }
}

/// The entries after storing `v` under `k`: an entry with that key gets the
/// new value in place; otherwise the pair is appended.
pub open spec fn inserted<K, V>(s: Seq<(K, V)>, k: K, v: V) -> Seq<(K, V)> {
    if has_key(s, k) {
        s.update(index_of(s, k), (k, v))
    } else {
        s.push((k, v))
    }
}

/// The entries after taking out the one with key `k`; those behind it move
/// one place down.
pub open spec fn removed<K, V>(s: Seq<(K, V)>, k: K) -> Seq<(K, V)> {
    if has_key(s, k) {
        s.remove(index_of(s, k))
    } else {
        s
    }
}

/// The entries after inserting each pair of `ps` into `s`, first to last.
pub open spec fn insert_all<K, V>(s: Seq<(K, V)>, ps: Seq<(K, V)>) -> Seq<(K, V)>
    decreases ps.len(),
{
    if ps.len() == 0 {
        s
    } else {
        let p = ps.last();
        inserted(insert_all(s, ps.drop_last()), p.0, p.1)
    }
}

/// The keys of the entries, in order.
pub open spec fn keys_of<K, V>(s: Seq<(K, V)>) -> Seq<K> {
    s.map_values(|p: (K, V)| p.0)
}

/// Each key of `ks` once, where it first occurs.
pub open spec fn first_occurrences<K>(ks: Seq<K>) -> Seq<K>
    decreases ks.len(),
{
    if ks.len() == 0 {
        ks
    } else {
        let earlier = first_occurrences(ks.drop_last());
        if earlier.contains(ks.last()) {
            earlier
        } else {
            earlier.push(ks.last())
        }
    }
}

/// `e` copies `s`: the same keys in the same order, each value a clone of
/// the one in `s`.
pub open spec fn cloned_entries<K, V: Clone>(s: Seq<(K, V)>, e: Seq<(K, V)>) -> bool {
    &&& e.len() == s.len()
    &&& forall|i: int| 0 <= i < s.len() ==> #[trigger] e[i].0 == s[i].0
    &&& forall|i: int| 0 <= i < s.len() ==> cloned::<V>(s[i].1, #[trigger] e[i].1)
}

/// The slots `s` hold the entries `e`: slot `i` holds `e[i]` for each
/// entry, and every later slot is empty.
pub open spec fn slots_hold<K, V>(s: Seq<Pair<K, V>>, e: Seq<(K, V)>) -> bool {
    &&& e.len() <= s.len()
    &&& forall|i: int| 0 <= i < s.len() ==> (#[trigger] s[i] is Present <==> i < e.len())
    &&& forall|i: int| 0 <= i < e.len() ==> #[trigger] s[i]->Present_0 == e[i]
}

/// Where a key is present, `index_of` finds the one entry that has it.
pub proof fn lemma_index_of<K, V>(s: Seq<(K, V)>, i: int)
    requires
        unique_keys(s),
        0 <= i < s.len(),
    ensures
        has_key(s, s[i].0),
        index_of(s, s[i].0) == i,
        lookup(s, s[i].0) == Some(s[i].1),
{
    assert(s[i].0 == s[i].0);
}

} // verus!
