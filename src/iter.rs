//! Walks over a map's entries in slot order: one that borrows the map and
//! one that takes it over.
use vstd::prelude::*;

use crate::map::MicroMap;
use crate::model::slots_hold;
use crate::pair::Pair;

verus! {

/// A walk over the entries of a borrowed map, yielding references.
pub struct MapIter<'a, K, V, const N: usize> {
    pos: usize,
    pairs: &'a Vec<Pair<K, V>>,
    end: Ghost<nat>,
}

/// A walk that owns the slots of a map and takes each pair out of its slot.
pub struct MapIntoIter<K, V, const N: usize> {
    pos: usize,
    pairs: Vec<Pair<K, V>>,
    end: Ghost<nat>,
}

/// From slot `pos` on, the slots before `end` hold pairs and the rest are empty.
pub open spec fn filled_from<K, V>(s: Seq<Pair<K, V>>, pos: int, end: int) -> bool {
    &&& 0 <= pos <= end <= s.len()
    &&& forall|j: int| pos <= j < s.len() ==> (#[trigger] s[j] is Present <==> j < end)
}

/// The pairs in slots `pos` up to `end`.
pub open spec fn pairs_between<K, V>(s: Seq<Pair<K, V>>, pos: int, end: int) -> Seq<(K, V)> {
    Seq::new((end - pos) as nat, |j: int| s[pos + j]->Present_0)
}

impl<'a, K, V, const N: usize> MapIter<'a, K, V, N> {
    /// The slots from the current one on are a run of pairs, then empty.
    pub closed spec fn wf(&self) -> bool {
        filled_from(self.pairs@, self.pos as int, self.end@ as int)
    }

    /// The entries not yet yielded, in the order they will come.
    pub closed spec fn rest(&self) -> Seq<(K, V)> {
        pairs_between(self.pairs@, self.pos as int, self.end@ as int)
    }

    /// The next entry, or `None` once the filled slots are passed.
    pub fn next(&mut self) -> (r: Option<(&'a K, &'a V)>)
        requires
            old(self).wf(),
        ensures
            final(self).wf(),
            match r {
                Some((k, v)) => {
                    &&& old(self).rest().len() > 0
                    &&& (*k, *v) == old(self).rest()[0]
                    &&& final(self).rest() == old(self).rest().drop_first()
                },
                None => old(self).rest().len() == 0 && final(self).rest() == old(self).rest(),
            },
    {
        let pairs: &'a Vec<Pair<K, V>> = self.pairs;
        if self.pos < pairs.len() {
            match &pairs[self.pos] {
                Pair::Present(p) => {
                    self.pos = self.pos + 1;
                    assert(self.rest() =~= old(self).rest().drop_first());
                    Some((&p.0, &p.1))
                },
                Pair::Absent => None,
            }
        } else {
            None
        }
    }
}

impl<K, V, const N: usize> MapIntoIter<K, V, N> {
    /// The slots from the current one on are a run of pairs, then empty.
    pub closed spec fn wf(&self) -> bool {
        filled_from(self.pairs@, self.pos as int, self.end@ as int)
    }

    /// The entries not yet yielded, in the order they will come.
    pub closed spec fn rest(&self) -> Seq<(K, V)> {
        pairs_between(self.pairs@, self.pos as int, self.end@ as int)
    }

    /// Takes the next pair out of its slot, or returns `None` once the
    /// filled slots are passed.
    pub fn next(&mut self) -> (r: Option<(K, V)>)
        requires
            old(self).wf(),
        ensures
            final(self).wf(),
            match r {
                Some(p) => {
                    &&& old(self).rest().len() > 0
                    &&& p == old(self).rest()[0]
                    &&& final(self).rest() == old(self).rest().drop_first()
                },
                None => old(self).rest().len() == 0 && final(self).rest() == old(self).rest(),
            },
    {
        if self.pos < self.pairs.len() && self.pairs[self.pos].is_some() {
            let mut slot = Pair::Absent;
            std::mem::swap(&mut self.pairs[self.pos], &mut slot);
            self.pos = self.pos + 1;
            assert(self.rest() =~= old(self).rest().drop_first());
            Some(slot.unwrap())
        } else {
            None
        }
    }
}

impl<K: Copy + PartialEq, V: Clone, const N: usize> MicroMap<K, V, N> {
    /// A walk over the entries in slot order, yielding references.
    pub fn iter(&self) -> (r: MapIter<'_, K, V, N>)
        requires
            self.wf(),
        ensures
            r.wf(),
            r.rest() == self@,
    {
        let pairs = self.slots();
        let r = MapIter { pos: 0, pairs, end: Ghost(self@.len()) };
        assert(r.rest() =~= self@);
        r
    }

    /// A walk that takes the map over and yields its pairs in slot order.
    pub fn into_iter(self) -> (r: MapIntoIter<K, V, N>)
        requires
            self.wf(),
        ensures
            r.wf(),
            r.rest() == self@,
    {
        let ghost entries = self@;
        let pairs = self.into_slots();
        let r = MapIntoIter { pos: 0, pairs, end: Ghost(entries.len()) };
        assert(r.rest() =~= entries);
        r
    }
}

} // verus!
