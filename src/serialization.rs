//! A map as a sequence of key-value pairs, and back.
use vstd::prelude::*;
use vstd::laws_eq::obeys_concrete_eq;

use crate::map::MicroMap;
use crate::model::{cloned_entries, insert_all};

verus! {

/// Why a sequence of pairs could not become a map.
#[derive(Debug, PartialEq, Eq, Structural)]
pub enum DecodeError {
    /// More pairs came than the map has slots.
    MalformedInput,
}

impl<K: Copy + PartialEq, V: Clone, const N: usize> MicroMap<K, V, N> {
    /// The entries as a sequence of pairs, in slot order, values cloned.
    pub fn encode(&self) -> (r: Vec<(K, V)>)
        requires
            self.wf(),
        ensures
            cloned_entries(self@, r@),
    {
        let mut out: Vec<(K, V)> = Vec::new();
        let mut it = self.iter();
        loop
            invariant
                it.wf(),
                out@.len() + it.rest().len() == self@.len(),
                it.rest() == self@.skip(out@.len() as int),
                cloned_entries(self@.take(out@.len() as int), out@),
            ensures
                out@.len() == self@.len(),
                cloned_entries(self@.take(out@.len() as int), out@),
            decreases it.rest().len(),
        {
            match it.next() {
                Some((k, v)) => {
                    out.push((*k, v.clone()));
                },
                None => {
                    break;
                },
            }
        }
        assert(self@.take(out@.len() as int) =~= self@);
        out
    }

    /// A new map that receives the pairs in order, as `insert` does; more
    /// pairs than slots are refused.
    pub fn decode(pairs: Vec<(K, V)>) -> (r: Result<Self, DecodeError>)
        requires
            obeys_concrete_eq::<K>(),
        ensures
            pairs@.len() > N ==> r == Err::<Self, DecodeError>(DecodeError::MalformedInput),
            pairs@.len() <= N ==> (r matches Ok(m) && m.wf() && m@ == insert_all(Seq::empty(), pairs@)),
    {
        if pairs.len() > N {
            return Err(DecodeError::MalformedInput);
        }
        let ghost all = pairs@;
        let mut rest = pairs;
        let mut m = Self::new();
        let mut i: usize = 0;
        while rest.len() > 0
            invariant
                all.len() <= N,
                i + rest@.len() == all.len(),
                rest@ == all.skip(i as int),
                m.wf(),
                m@.len() <= i,
                m@ == insert_all(Seq::empty(), all.take(i as int)),
            decreases rest@.len(),
        {
            let (k, v) = rest.remove(0);
            assert(all.take(i + 1).drop_last() =~= all.take(i as int));
            assert(all[i as int] == (k, v));
            m.insert(k, v);
            i += 1;
            assert(rest@ =~= all.skip(i as int));
        }
        assert(all.take(i as int) =~= all);
        Ok(m)
    }
}

} // verus!
