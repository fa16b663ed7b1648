//! Laws that relate the map's operations, stated over the entry sequences
//! that their contracts speak of.
use vstd::prelude::*;

use crate::map::MicroMap;
use crate::model::{
    cloned_entries, first_occurrences, has_key, index_of, insert_all, inserted, keys_of,
    lemma_index_of, lookup, removed, unique_keys,
};

verus! {

/// Inserting pairs with distinct keys into an empty map appends each one:
/// the entries are the pairs, in the order they came.
pub proof fn lemma_insert_distinct<K, V>(ps: Seq<(K, V)>)
    requires
        unique_keys(ps),
    ensures
        insert_all(Seq::empty(), ps) == ps,
    decreases ps.len(),
{
    if ps.len() > 0 {
        let init = ps.drop_last();
        assert(unique_keys(init));
        lemma_insert_distinct(init);
        let p = ps.last();
        assert(!has_key(init, p.0)) by {
            if has_key(init, p.0) {
                let j = choose|j: int| 0 <= j < init.len() && #[trigger] init[j].0 == p.0;
                assert(ps[j].0 == ps[ps.len() - 1].0);
            }
        }
        assert(init.push(p) =~= ps);
    }
}

/// After each insert of a new key the length is the number of keys inserted
/// so far; once `N` distinct keys are in, a further new key has no room.
pub proof fn lemma_len_counts_distinct_keys<K: Copy + PartialEq, V: Clone, const N: usize>(
    m: MicroMap<K, V, N>,
    ps: Seq<(K, V)>,
    k: K,
)
    requires
        unique_keys(ps),
        m.wf(),
        m@ == insert_all(Seq::empty(), ps),
    ensures
        forall|i: int| 0 <= i <= ps.len() ==> #[trigger] insert_all(Seq::empty(), ps.take(i)).len() == i,
        ps.len() == N && !has_key(ps, k) ==> !m.has_room_for(k),
{
    assert forall|i: int| 0 <= i <= ps.len() implies #[trigger] insert_all(Seq::empty(), ps.take(i)).len() == i by {
        let t = ps.take(i);
        assert(unique_keys(t));
        lemma_insert_distinct(t);
    }
    lemma_insert_distinct(ps);
}

/// Inserting under a key leaves keys distinct and `get` sees the new value.
/// A present key keeps the length; a first insert finds no previous value;
/// other keys keep their values.
pub proof fn lemma_reinsert<K, V>(s: Seq<(K, V)>, k: K, v: V)
    requires
        unique_keys(s),
    ensures
        unique_keys(inserted(s, k, v)),
        lookup(inserted(s, k, v), k) == Some(v),
        has_key(s, k) ==> inserted(s, k, v).len() == s.len(),
        !has_key(s, k) ==> lookup(s, k) is None && inserted(s, k, v).len() == s.len() + 1,
        forall|k2: K| k2 != k ==> #[trigger] lookup(inserted(s, k, v), k2) == lookup(s, k2),
{
    let t = inserted(s, k, v);
    if has_key(s, k) {
        let i = index_of(s, k);
        assert(t.len() == s.len());
        assert forall|a: int, b: int| 0 <= a < t.len() && 0 <= b < t.len() && a != b
            implies #[trigger] t[a].0 != #[trigger] t[b].0 by {
            assert(t[a].0 == s[a].0 && t[b].0 == s[b].0);
        }
        lemma_index_of(t, i);
        assert forall|k2: K| k2 != k implies #[trigger] lookup(t, k2) == lookup(s, k2) by {
            if has_key(s, k2) {
                let j = index_of(s, k2);
                lemma_index_of(s, j);
                lemma_index_of(t, j);
            } else if has_key(t, k2) {
                let j = choose|j: int| 0 <= j < t.len() && #[trigger] t[j].0 == k2;
                assert(s[j].0 == k2);
            }
        }
    } else {
        let i = s.len() as int;
        assert forall|a: int, b: int| 0 <= a < t.len() && 0 <= b < t.len() && a != b
            implies #[trigger] t[a].0 != #[trigger] t[b].0 by {
            if a < s.len() && b < s.len() {
                assert(t[a].0 == s[a].0 && t[b].0 == s[b].0);
            } else if a < s.len() {
                assert(t[a].0 == s[a].0);
            } else {
                assert(t[b].0 == s[b].0);
            }
        }
        lemma_index_of(t, i);
        assert forall|k2: K| k2 != k implies #[trigger] lookup(t, k2) == lookup(s, k2) by {
            if has_key(s, k2) {
                let j = index_of(s, k2);
                lemma_index_of(s, j);
                lemma_index_of(t, j);
            } else if has_key(t, k2) {
                let j = choose|j: int| 0 <= j < t.len() && #[trigger] t[j].0 == k2;
                assert(s[j].0 == k2);
            }
        }
    }
}

/// After a removal the key is gone and the length dropped by one; removing
/// an absent key finds nothing and changes nothing.
pub proof fn lemma_remove<K, V>(s: Seq<(K, V)>, k: K)
    requires
        unique_keys(s),
    ensures
        unique_keys(removed(s, k)),
        lookup(removed(s, k), k) is None,
        has_key(s, k) ==> removed(s, k).len() == s.len() - 1,
        !has_key(s, k) ==> lookup(s, k) is None && removed(s, k) == s,
{
    let t = removed(s, k);
    if has_key(s, k) {
        let i = index_of(s, k);
        lemma_index_of(s, i);
        assert forall|a: int, b: int| 0 <= a < t.len() && 0 <= b < t.len() && a != b
            implies #[trigger] t[a].0 != #[trigger] t[b].0 by {
            let sa = if a < i { a } else { a + 1 };
            let sb = if b < i { b } else { b + 1 };
            assert(t[a].0 == s[sa].0 && t[b].0 == s[sb].0);
        }
        if has_key(t, k) {
            let j = choose|j: int| 0 <= j < t.len() && #[trigger] t[j].0 == k;
            let sj = if j < i { j } else { j + 1 };
            assert(s[sj].0 == k);
        }
    }
}

/// Without removals, the keys stand in the order in which each first came in.
pub proof fn lemma_insertion_order<K, V>(ps: Seq<(K, V)>)
    ensures
        keys_of(insert_all(Seq::empty(), ps)) == first_occurrences(keys_of(ps)),
    decreases ps.len(),
{
    if ps.len() > 0 {
        let init = ps.drop_last();
        lemma_insertion_order(init);
        let s = insert_all(Seq::empty(), init);
        let p = ps.last();
        let ks = keys_of(ps);
        assert(keys_of(init) =~= ks.drop_last());
        assert(ks.last() == p.0);
        let earlier = first_occurrences(keys_of(init));
        assert(keys_of(s) == earlier);
        if has_key(s, p.0) {
            let i = index_of(s, p.0);
            assert(keys_of(s)[i] == p.0);
            assert(earlier.contains(p.0));
            assert(keys_of(s.update(i, (p.0, p.1))) =~= keys_of(s));
        } else {
            assert(!earlier.contains(p.0)) by {
                if earlier.contains(p.0) {
                    let j = choose|j: int| 0 <= j < earlier.len() && earlier[j] == p.0;
                    assert(s[j].0 == p.0);
                }
            }
            assert(keys_of(s.push((p.0, p.1))) =~= keys_of(s).push(p.0));
        }
    }
}

/// Decoding what `encode` gives back: the pairs fit the slots, and the new
/// map holds them as they came, with the old map's keys in the old order.
/// Where cloning a value gives an equal value, the new map holds the same
/// entries as the old one.
pub proof fn lemma_round_trip<K: Copy + PartialEq, V: Clone, const N: usize>(
    m: MicroMap<K, V, N>,
    e: Seq<(K, V)>,
)
    requires
        m.wf(),
        cloned_entries(m@, e),
    ensures
        e.len() == m@.len(),
        e.len() <= N,
        insert_all(Seq::empty(), e) == e,
        keys_of(e) == keys_of(m@),
        (forall|a: V, b: V| cloned::<V>(a, b) ==> a == b) ==> insert_all(Seq::empty(), e) == m@,
{
    m.lemma_entries();
    assert(keys_of(e) =~= keys_of(m@));
    assert forall|a: int, b: int| 0 <= a < e.len() && 0 <= b < e.len() && a != b
        implies #[trigger] e[a].0 != #[trigger] e[b].0 by {
        assert(e[a].0 == m@[a].0 && e[b].0 == m@[b].0);
    }
    lemma_insert_distinct(e);
    if forall|a: V, b: V| cloned::<V>(a, b) ==> a == b {
        assert forall|i: int| 0 <= i < e.len() implies #[trigger] e[i] == m@[i] by {
            assert(cloned::<V>(m@[i].1, e[i].1));
        }
        assert(e =~= m@);
    }
}

} // verus!
