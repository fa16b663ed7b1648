use vstd::prelude::*;

verus! {

/// One slot of a map's storage: a key-value pair, or nothing.
pub enum Pair<K, V> {
    Present((K, V)),
    Absent,
}

impl<K, V> Default for Pair<K, V> {
    fn default() -> (r: Self)
        ensures
            r is Absent,
    {
        Pair::Absent
    }
}

impl<K: Copy, V: Clone> Clone for Pair<K, V> {
    /// Keeps the key and clones the value.
    fn clone(&self) -> (r: Self)
        ensures
            self is Absent ==> r is Absent,
            self is Present ==> r is Present && r->Present_0.0 == self->Present_0.0
                && cloned::<V>(self->Present_0.1, r->Present_0.1),
    {
        match self {
            Pair::Present(p) => Pair::Present((p.0, p.1.clone())),
            Pair::Absent => Pair::Absent,
        }
    }
}

impl<K, V> Pair<K, V> {
    /// Whether the slot holds a pair.
    pub fn is_some(&self) -> (r: bool)
        ensures
            r == (self is Present),
    {
        match self {
            Pair::Absent => false,
            Pair::Present(_) => true,
        }
    }

    /// Takes the pair out of a slot that holds one.
    pub fn unwrap(self) -> (r: (K, V))
        requires
            self is Present,
        ensures
            r == self->Present_0,
    {
        match self {
            Pair::Present(p) => p,
            Pair::Absent => unreached(),
        }
    }

    /// A mutable reference to the pair, where the slot holds one.
    pub fn as_mut(&mut self) -> (r: Option<&mut (K, V)>)
        ensures
            match r {
                Some(p) => *old(self) is Present && *p == old(self)->Present_0
                    && *final(self) == Pair::Present(*final(p)),
                None => *old(self) is Absent && *final(self) == *old(self),
            },
    {
        match self {
            Pair::Present(p) => Some(p),
            Pair::Absent => None,
        }
    }
}

} // verus!
