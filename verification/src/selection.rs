use vstd::prelude::*;

verus! {

/// The result of a successful policy decision.
///
/// An index keeps selection independent from ownership, cloning, and dispatch.
#[derive(Clone, Copy, Debug, PartialEq, Eq, Structural, Hash)]
pub struct Selection {
    index: usize,
}

impl View for Selection {
    type V = usize;

    closed spec fn view(&self) -> usize {
        self.index
    }
}

impl Selection {
    /// Wraps a candidate index.
    pub(crate) fn new(index: usize) -> (s: Self)
        ensures
            s@ == index,
    {
        Selection { index }
    }

    /// Returns the selected index in the candidate slice passed to the policy.
    pub fn index(self) -> (i: usize)
        ensures
            i == self@,
    {
        self.index
    }

    /// Two selections are equal exactly when they name the same index.
    pub proof fn lemma_view_injective(a: Self, b: Self)
        ensures
            a@ == b@ <==> a == b,
    {
    }
}

} // verus!
