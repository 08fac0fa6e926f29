//! A counter that hands out identifiers.

use vstd::prelude::*;

verus! {

/// Source of unique identifiers: hands out 0, 1, 2, ... in turn.
pub struct IdCounter {
    id: usize,
}

impl IdCounter {
    /// The identifier that the next call of `next` returns.
    pub closed spec fn upcoming(&self) -> nat {
        self.id as nat
    }

    /// A counter that starts at zero.
    pub fn new() -> (c: Self)
        ensures
            c.upcoming() == 0,
    {
        IdCounter { id: 0 }
    }

    /// Hands out the upcoming identifier and moves on by one.
    pub fn next(&mut self) -> (id: usize)
        requires
            old(self).upcoming() < usize::MAX,
        ensures
            id == old(self).upcoming(),
            final(self).upcoming() == old(self).upcoming() + 1,
    {
        let id = self.id;
        self.id = self.id + 1;
        id
    }

    /// Whether the counter has run out: `next` can be called iff this is false.
    pub fn is_exhausted(&self) -> (b: bool)
        ensures
            b == (self.upcoming() >= usize::MAX),
    {
        self.id == usize::MAX
    }
}

} // verus!
