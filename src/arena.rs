//! A placeholder arena, holding only its capacity hint.

use vstd::prelude::*;

verus! {

/// A trivial arena placeholder (not a real arena).
pub struct Arena {
    cap: usize,
}

impl Arena {
    /// The capacity hint given at creation.
    pub closed spec fn spec_capacity(&self) -> nat {
        self.cap as nat
    }

    /// A new arena placeholder with the given capacity hint.
    pub fn new(cap: usize) -> (r: Self)
        ensures
            r.spec_capacity() == cap,
    {
        Arena { cap }
    }

    /// The capacity hint given at creation.
    pub fn capacity(&self) -> (r: usize)
        ensures
            r == self.spec_capacity(),
    {
        self.cap
    }
}

} // verus!
