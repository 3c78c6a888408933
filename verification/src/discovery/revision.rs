use vstd::prelude::*;

verus! {

/// A monotonically increasing membership revision.
#[derive(Clone, Copy, Debug, PartialEq, Eq, Structural, PartialOrd, Ord, Hash)]
pub struct Revision {
    value: u64,
}

impl View for Revision {
    type V = u64;

    closed spec fn view(&self) -> u64 {
        self.value
    }
}

impl Revision {
    /// The revision of an empty, never-changed membership.
    pub fn initial() -> (r: Self)
        ensures
            r@ == 0,
    {
        Revision { value: 0 }
    }

    /// Wraps a raw revision number.
    pub fn new(value: u64) -> (r: Self)
        ensures
            r@ == value,
    {
        Revision { value }
    }

    /// Returns the raw revision number.
    pub fn get(self) -> (v: u64)
        ensures
            v == self@,
    {
        self.value
    }

    /// Returns the next revision, or `None` when the clock is exhausted.
    pub fn checked_next(self) -> (r: Option<Self>)
        ensures
            self@ == u64::MAX ==> r is None,
            self@ < u64::MAX ==> (r matches Some(n) && n@ == self@ + 1),
    {
        if self.value == u64::MAX {
            None
        } else {
            Some(Revision { value: self.value + 1 })
        }
    }

    /// Two revisions are equal exactly when their numbers are.
    pub proof fn lemma_view_injective(a: Self, b: Self)
        ensures
            a@ == b@ <==> a == b,
    {
    }
}

impl Default for Revision {
    fn default() -> (r: Self)
        ensures
            r@ == 0,
    {
        Revision::initial()
    }
}

} // verus!
