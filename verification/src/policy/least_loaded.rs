use vstd::prelude::*;

use crate::backend::Candidate;
use crate::error::PickError;
use crate::load::LoadMetric;
use crate::selection::Selection;

use super::{Policy, any_eligible, eligible_at, no_candidate_error, ring_offset, ring_pos};

verus! {

/// The sampled load of the candidate at `i`.
pub open spec fn load_at<C: Candidate>(cs: Seq<C>, i: int) -> int where C::Load: LoadMetric {
    cs[i].spec_load().spec_measure()
}

/// Whether `i` is the eligible candidate with the smallest load, ties going
/// to the first one met when scanning the ring of candidates from `start`.
pub open spec fn least_loaded_from<C: Candidate>(cs: Seq<C>, start: int, i: int) -> bool where
    C::Load: LoadMetric,
 {
    let n = cs.len() as int;
    &&& 0 <= i < n
    &&& cs[i].spec_eligible()
    &&& forall|j: int| eligible_at(cs, j) ==> load_at(cs, i) <= #[trigger] load_at(cs, j)
    &&& forall|k: int|
        0 <= k < ring_offset(start, i, n) && eligible_at(cs, ring_pos(start, k, n)) ==> load_at(
            cs,
            i,
        ) < #[trigger] load_at(cs, ring_pos(start, k, n))
}

/// Selects the eligible candidate with the smallest load metric.
///
/// Ties rotate in slice order to avoid permanently favoring the first backend.
/// Selection takes `O(n)` time and allocates no memory.
#[derive(Clone, Debug)]
pub struct LeastLoaded {
    cursor: usize,
}

impl View for LeastLoaded {
    type V = usize;

    closed spec fn view(&self) -> usize {
        self.cursor
    }
}

impl Default for LeastLoaded {
    fn default() -> (p: Self)
        ensures
            p@ == 0,
    {
        LeastLoaded { cursor: 0 }
    }
}

impl LeastLoaded {
    /// Creates a policy whose first tie scan starts at index zero.
    pub fn new() -> (p: Self)
        ensures
            p@ == 0,
    {
        LeastLoaded { cursor: 0 }
    }

    /// Selects the least-loaded eligible candidate, sampling each eligible
    /// load once.
    pub fn pick_least<C: Candidate>(&mut self, candidates: &[C]) -> (r: Result<Selection, PickError>) where
        C::Load: LoadMetric,
        ensures
            candidates@.len() == 0 ==> r == Err::<Selection, PickError>(PickError::Empty),
            candidates@.len() > 0 && !any_eligible(candidates@) ==> r == Err::<Selection, PickError>(
                PickError::NoEligibleCandidates,
            ),
            r is Err ==> final(self)@ == old(self)@,
            any_eligible(candidates@) ==> r is Ok,
            r matches Ok(s) ==> {
                &&& least_loaded_from(
                    candidates@,
                    (old(self)@ as int) % (candidates@.len() as int),
                    s@ as int,
                )
                &&& final(self)@ == (if s@ == usize::MAX { 0 } else { s@ + 1 })
            },
    {
        let n = candidates.len();
        if n == 0 {
            return Err(PickError::Empty);
        }
        let start = self.cursor % n;
        let mut selected: Option<(usize, i128)> = None;
        let mut offset: usize = 0;
        while offset < n
            invariant
                n == candidates@.len(),
                start < n,
                offset <= n,
                self@ == old(self)@,
                start as int == (old(self)@ as int) % (n as int),
                selected is None ==> forall|k: int|
                    0 <= k < offset ==> !eligible_at(
                        candidates@,
                        #[trigger] ring_pos(start as int, k, n as int),
                    ),
                selected matches Some((idx, m)) ==> {
                    &&& idx < n
                    &&& candidates@[idx as int].spec_eligible()
                    &&& m as int == load_at(candidates@, idx as int)
                    &&& ring_offset(start as int, idx as int, n as int) < offset
                    &&& forall|k: int|
                        0 <= k < offset && eligible_at(
                            candidates@,
                            ring_pos(start as int, k, n as int),
                        ) ==> m <= #[trigger] load_at(
                            candidates@,
                            ring_pos(start as int, k, n as int),
                        )
                    &&& forall|k: int|
                        0 <= k < ring_offset(start as int, idx as int, n as int) && eligible_at(
                            candidates@,
                            ring_pos(start as int, k, n as int),
                        ) ==> m < #[trigger] load_at(
                            candidates@,
                            ring_pos(start as int, k, n as int),
                        )
                },
            decreases n - offset,
        {
            let index = if start < n - offset {
                start + offset
            } else {
                start - (n - offset)
            };
            assert(index == ring_pos(start as int, offset as int, n as int));
            let candidate = &candidates[index];
            if candidate.is_eligible() {
                let metric = candidate.load().measure();
                match selected {
                    None => {
                        assert(ring_offset(start as int, index as int, n as int) == offset);
                        selected = Some((index, metric));
                    },
                    Some((_, winning)) => {
                        if metric < winning {
                            assert(ring_offset(start as int, index as int, n as int) == offset);
                            selected = Some((index, metric));
                        }
                    },
                }
            }
            offset = offset + 1;
        }
        match selected {
            None => {
                proof {
                    assert forall|i: int| 0 <= i < n implies !#[trigger] candidates@[i].spec_eligible() by {
                        let k = ring_offset(start as int, i, n as int);
                        assert(ring_pos(start as int, k, n as int) == i);
                    }
                    assert(!any_eligible(candidates@));
                }
                let e = no_candidate_error(n);
                assert(e == PickError::NoEligibleCandidates);
                assert(self@ == old(self)@);
                Err(e)
            },
            Some((index, _)) => {
                proof {
                    assert(eligible_at(candidates@, index as int));
                    assert forall|j: int| eligible_at(candidates@, j) implies load_at(
                        candidates@,
                        index as int,
                    ) <= #[trigger] load_at(candidates@, j) by {
                        let k = ring_offset(start as int, j, n as int);
                        assert(ring_pos(start as int, k, n as int) == j);
                    }
                }
                self.cursor = index.wrapping_add(1);
                Ok(Selection::new(index))
            },
        }
    }
}

impl<C: Candidate> Policy<C, ()> for LeastLoaded where C::Load: LoadMetric {
    open spec fn pick_outcome(
        &self,
        after: &Self,
        candidates: &[C],
        context: &(),
        r: Result<Selection, PickError>,
    ) -> bool {
        &&& candidates@.len() == 0 ==> r == Err::<Selection, PickError>(PickError::Empty)
        &&& candidates@.len() > 0 && !any_eligible(candidates@) ==> r == Err::<Selection, PickError>(
            PickError::NoEligibleCandidates,
        )
        &&& r is Err ==> after@ == self@
        &&& any_eligible(candidates@) ==> r is Ok
        &&& r matches Ok(s) ==> {
            &&& least_loaded_from(
                candidates@,
                (self@ as int) % (candidates@.len() as int),
                s@ as int,
            )
            &&& after@ == (if s@ == usize::MAX { 0 } else { s@ + 1 })
        }
    }

    fn pick(&mut self, candidates: &[C], context: &()) -> (r: Result<Selection, PickError>) {
        self.pick_least(candidates)
    }
}

/// Least-loaded selection over candidates with integer `usize` loads
/// succeeds whenever some candidate is eligible, and selects an eligible
/// candidate whose load value is no greater than any eligible candidate's.
pub proof fn lemma_least_loaded_takes_the_smallest_load<C: Candidate<Load = usize>>(
    policy: LeastLoaded,
    after: LeastLoaded,
    candidates: &[C],
    r: Result<Selection, PickError>,
)
    requires
        policy.pick_outcome(&after, candidates, &(), r),
    ensures
        any_eligible(candidates@) ==> r is Ok,
        r matches Ok(s) ==> {
            &&& eligible_at(candidates@, s@ as int)
            &&& forall|j: int|
                eligible_at(candidates@, j) ==> candidates@[s@ as int].spec_load() <= #[trigger] candidates@[j].spec_load()
        },
{
    let cs = candidates@;
    if let Ok(s) = r {
        assert forall|j: int| eligible_at(cs, j) implies cs[s@ as int].spec_load() <= #[trigger] cs[j].spec_load() by {
            assert(load_at(cs, s@ as int) <= load_at(cs, j));
        }
    }
}

} // verus!
