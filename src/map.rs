//! The map itself: `N` slots whose pairs fill a prefix, keys found by scanning.
use vstd::prelude::*;
use vstd::laws_eq::obeys_concrete_eq;

use crate::model::{
    cloned_entries, has_key, index_of, inserted, lemma_index_of, lookup, removed, slots_hold,
    unique_keys,
};
use crate::pair::Pair;

verus! {

/// A map of at most `N` entries, held in `N` slots.
///
/// The pairs fill a prefix of the slots, in the order in which their keys
/// came in (a removal closes the gap it leaves); the other slots are empty.
/// Keys are compared with `==`, values are never compared.
pub struct MicroMap<K: Copy + PartialEq, V: Clone, const N: usize> {
    pairs: Vec<Pair<K, V>>,
    size: Ghost<nat>,
}

/// Key equality as `==` on `K` computes it.
fn same_key<K: PartialEq>(a: &K, b: &K) -> (r: bool)
    requires
        obeys_concrete_eq::<K>(),
    ensures
        r == (*a == *b),
{
    proof {
        reveal(obeys_concrete_eq);
    }
    *a == *b
}

impl<K: Copy + PartialEq, V: Clone, const N: usize> MicroMap<K, V, N> {
    /// The entries, in slot order.
    pub closed spec fn view(&self) -> Seq<(K, V)> {
        Seq::new(self.size@, |i: int| self.pairs@[i]->Present_0)
    }

    /// The slots hold a prefix of pairs with distinct keys, then empty slots.
    pub closed spec fn wf(&self) -> bool {
        &&& obeys_concrete_eq::<K>()
        &&& self.pairs@.len() == N
        &&& self.size@ <= N
        &&& forall|i: int| 0 <= i < N ==> (#[trigger] self.pairs@[i] is Present <==> i < self.size@)
        &&& unique_keys(self@)
    }

    /// A well-formed map holds at most `N` entries, no two with one key.
    pub proof fn lemma_entries(&self)
        requires
            self.wf(),
        ensures
            self@.len() <= N,
            unique_keys(self@),
    {
    }

    /// Whether `insert(k, _)` has room: a slot is free or `k` is present.
    pub open spec fn has_room_for(&self, k: K) -> bool {
        self@.len() < N || has_key(self@, k)
    }

    /// An empty map: every slot is empty.
    pub fn new() -> (r: Self)
        requires
            obeys_concrete_eq::<K>(),
        ensures
            r.wf(),
            r@ == Seq::<(K, V)>::empty(),
    {
        let mut pairs: Vec<Pair<K, V>> = Vec::new();
        while pairs.len() < N
            invariant
                pairs@.len() <= N,
                forall|i: int| 0 <= i < pairs@.len() ==> #[trigger] pairs@[i] is Absent,
            decreases N - pairs@.len(),
        {
            pairs.push(Pair::Absent);
        }
        let r = MicroMap { pairs, size: Ghost(0) };
        assert(r@ =~= Seq::<(K, V)>::empty());
        r
    }

    /// The number of slots, `N`.
    pub fn capacity(&self) -> (r: usize)
        ensures
            r == N,
    {
        N
    }

    /// The number of entries: the slots that hold a pair.
    pub fn len(&self) -> (r: usize)
        requires
            self.wf(),
        ensures
            r == self@.len(),
    {
        let mut i: usize = 0;
        while i < self.pairs.len() && self.pairs[i].is_some()
            invariant
                self.wf(),
                i <= self.size@,
            decreases N - i,
        {
            i += 1;
        }
        i
    }

    /// Whether the map has no entry.
    pub fn is_empty(&self) -> (r: bool)
        requires
            self.wf(),
        ensures
            r == (self@.len() == 0),
    {
        self.len() == 0
    }

    /// The slot of the entry with key `key`, scanning from the first slot.
    fn position(&self, key: &K) -> (r: Option<usize>)
        requires
            self.wf(),
        ensures
            match r {
                Some(i) => has_key(self@, *key) && i == index_of(self@, *key),
                None => !has_key(self@, *key),
            },
    {
        let mut i: usize = 0;
        while i < self.pairs.len()
            invariant
                self.wf(),
                i <= N,
                forall|j: int| 0 <= j < i && j < self@.len() ==> #[trigger] self@[j].0 != *key,
            decreases N - i,
        {
            match &self.pairs[i] {
                Pair::Present(p) => {
                    if same_key(&p.0, key) {
                        proof {
                            assert(self@[i as int] == self.pairs@[i as int]->Present_0);
                            lemma_index_of(self@, i as int);
                        }
                        return Some(i);
                    }
                },
                Pair::Absent => {},
            }
            i += 1;
        }
        None
    }

    /// Whether some entry has key `key`.
    pub fn contains_key(&self, key: &K) -> (r: bool)
        requires
            self.wf(),
        ensures
            r == has_key(self@, *key),
    {
        self.position(key).is_some()
    }

    /// The value stored under `key`, if any.
    pub fn get(&self, key: &K) -> (r: Option<&V>)
        requires
            self.wf(),
        ensures
            match r {
                Some(v) => lookup(self@, *key) == Some(*v),
                None => lookup(self@, *key) is None,
            },
    {
        match self.position(key) {
            Some(i) => match &self.pairs[i] {
                Pair::Present(p) => Some(&p.1),
                Pair::Absent => None,
            },
            None => None,
        }
    }

    /// A mutable reference to the value stored under `key`, if any.
    pub fn get_mut(&mut self, key: &K) -> (r: Option<&mut V>)
        requires
            old(self).wf(),
        ensures
            match r {
                Some(v) => {
                    &&& lookup(old(self)@, *key) == Some(*v)
                    &&& final(self).wf()
                    &&& final(self)@ == old(self)@.update(index_of(old(self)@, *key), (*key, *final(v)))
                },
                None => lookup(old(self)@, *key) is None && *final(self) == *old(self),
            },
    {
        match self.position(key) {
            Some(i) => {
                proof {
                    lemma_index_of(self@, i as int);
                    assert forall|m: Self|
                        m.size == self.size && m.pairs@ == self.pairs@.update(
                            i as int,
                            Pair::Present((*key, m.pairs@[i as int]->Present_0.1)),
                        ) implies unique_keys(#[trigger] m@) by {
                        assert forall|a: int, b: int| 0 <= a < m@.len() && 0 <= b < m@.len() && a != b
                            implies #[trigger] m@[a].0 != #[trigger] m@[b].0 by {
                            assert(m@[a].0 == self@[a].0 && m@[b].0 == self@[b].0);
                        }
                    }
                }
                match self.pairs[i].as_mut() {
                    Some(p) => Some(&mut p.1),
                    None => None,
                }
            },
            None => None,
        }
    }

    /// Stores `value` under `key` and returns the value that was there.
    ///
    /// A present key keeps its slot and gets the new value; a new key takes
    /// the first empty slot. A new key needs a free slot: on a full map the
    /// slot write is out of bounds and panics.
    pub fn insert(&mut self, key: K, value: V) -> (r: Option<V>)
        requires
            old(self).wf(),
            old(self).has_room_for(key),
        ensures
            final(self).wf(),
            final(self)@ == inserted(old(self)@, key, value),
            r == lookup(old(self)@, key),
    {
        match self.position(&key) {
            Some(i) => {
                proof {
                    lemma_index_of(self@, i as int);
                }
                let mut slot = Pair::Present((key, value));
                std::mem::swap(&mut self.pairs[i], &mut slot);
                assert(self@ =~= inserted(old(self)@, key, value));
                Some(slot.unwrap().1)
            },
            None => {
                let i = self.len();
                self.pairs.set(i, Pair::Present((key, value)));
                self.size = Ghost(self.size@ + 1);
                assert(self@ =~= inserted(old(self)@, key, value));
                None
            },
        }
    }

    /// Takes out the entry with key `key` and returns its value; the pairs
    /// behind it move one slot down.
    pub fn remove(&mut self, key: &K) -> (r: Option<V>)
        requires
            old(self).wf(),
        ensures
            final(self).wf(),
            final(self)@ == removed(old(self)@, *key),
            r == lookup(old(self)@, *key),
    {
        match self.position(key) {
            Some(i) => {
                proof {
                    lemma_index_of(self@, i as int);
                }
                let slot = self.pairs.remove(i);
                self.pairs.push(Pair::Absent);
                self.size = Ghost((self.size@ - 1) as nat);
                assert(self@ =~= removed(old(self)@, *key));
                Some(slot.unwrap().1)
            },
            None => None,
        }
    }

    /// Empties every slot.
    pub fn clear(&mut self)
        requires
            old(self).wf(),
        ensures
            final(self).wf(),
            final(self)@ == Seq::<(K, V)>::empty(),
    {
        let mut i: usize = 0;
        while i < self.pairs.len()
            invariant
                obeys_concrete_eq::<K>(),
                self.pairs@.len() == N,
                i <= N,
                forall|j: int| 0 <= j < i ==> #[trigger] self.pairs@[j] is Absent,
            decreases N - i,
        {
            self.pairs.set(i, Pair::Absent);
            i += 1;
        }
        self.size = Ghost(0);
        assert(self@ =~= Seq::<(K, V)>::empty());
    }

    /// The slots, for a borrowing walk over the entries.
    pub(crate) fn slots(&self) -> (r: &Vec<Pair<K, V>>)
        requires
            self.wf(),
        ensures
            slots_hold(r@, self@),
    {
        &self.pairs
    }

    /// The slots, handed over for a consuming walk over the entries.
    pub(crate) fn into_slots(self) -> (r: Vec<Pair<K, V>>)
        requires
            self.wf(),
        ensures
            slots_hold(r@, self@),
    {
        self.pairs
    }
}

impl<K: Copy + PartialEq, V: Clone, const N: usize> Clone for MicroMap<K, V, N> {
    /// Copies every slot: keys are kept, values cloned.
    fn clone(&self) -> (r: Self)
        ensures
            self.wf() ==> r.wf() && cloned_entries(self@, r@),
    {
        let mut pairs: Vec<Pair<K, V>> = Vec::new();
        let mut i: usize = 0;
        while i < self.pairs.len()
            invariant
                i <= self.pairs@.len(),
                pairs@.len() == i,
                forall|j: int| 0 <= j < i ==> (#[trigger] pairs@[j] is Present <==> self.pairs@[j] is Present),
                forall|j: int| 0 <= j < i && self.pairs@[j] is Present ==> {
                    &&& (#[trigger] pairs@[j])->Present_0.0 == self.pairs@[j]->Present_0.0
                    &&& cloned::<V>(self.pairs@[j]->Present_0.1, pairs@[j]->Present_0.1)
                },
            decreases self.pairs@.len() - i,
        {
            pairs.push(self.pairs[i].clone());
            i += 1;
        }
        let r = MicroMap { pairs, size: Ghost(self.size@) };
        proof {
            if self.wf() {
                assert forall|a: int, b: int| 0 <= a < r@.len() && 0 <= b < r@.len() && a != b
                    implies #[trigger] r@[a].0 != #[trigger] r@[b].0 by {
                    assert(r@[a].0 == self@[a].0 && r@[b].0 == self@[b].0);
                }
            }
        }
        r
    }
}

} // verus!
