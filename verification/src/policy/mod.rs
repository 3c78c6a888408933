//! Selection policy implementations.

use vstd::prelude::*;

use crate::backend::Candidate;
use crate::hash::StableKey;
use crate::error::PickError;
use crate::selection::Selection;

pub mod bounded_load;
pub mod least_loaded;
pub mod locality;
pub mod maglev;
pub mod priority;
pub mod random;
pub mod rendezvous;
pub mod ring_hash;
pub mod round_robin;
pub mod smooth_weighted_round_robin;
pub mod weighted_rendezvous;

pub use bounded_load::{
    BoundedLoadConfig, BoundedLoadConfigError, BoundedLoadDecision, BoundedLoadRendezvous,
    DEFAULT_BALANCE_FACTOR_PERCENT,
};
pub use least_loaded::LeastLoaded;
pub use locality::{LocalityCandidate, LocalityDecision, LocalityWeightedRandom, Localized};
pub use maglev::{DEFAULT_TABLE_SIZE, MAX_TABLE_SIZE, Maglev, MaglevConfig, MaglevConfigError, MaglevUpdate};
pub use priority::{
    DEFAULT_OVERPROVISIONING_FACTOR_PERCENT, DEFAULT_PANIC_THRESHOLD_PERCENT, PanicMode, Prioritized,
    PriorityCandidate, PriorityConfig, PriorityConfigError, PriorityDecision, PriorityMode,
    PriorityWeightedRandom,
};
pub use random::{PowerOfTwoChoices, Random, WeightedRandom};
pub use rendezvous::Rendezvous;
pub use ring_hash::{RingHash, RingHashConfig, RingHashConfigError, RingUpdate};
pub use round_robin::RoundRobin;
pub use smooth_weighted_round_robin::SmoothWeightedRoundRobin;
pub use weighted_rendezvous::WeightedRendezvous;

verus! {

/// Selects one candidate for a request context.
///
/// The context may be `()` for request-independent policies, or a key for
/// affinity and routing policies.
pub trait Policy<C, Context: ?Sized> {
    /// Whether `r` is a result this policy may give for `candidates` and
    /// `context` when it starts in this state and is left in `after`.
    spec fn pick_outcome(
        &self,
        after: &Self,
        candidates: &[C],
        context: &Context,
        r: Result<Selection, PickError>,
    ) -> bool;

    /// Selects an index from `candidates`, or reports why none can be chosen.
    fn pick(&mut self, candidates: &[C], context: &Context) -> (r: Result<Selection, PickError>)
        ensures
            r matches Ok(s) ==> s@ < candidates@.len(),
            old(self).pick_outcome(final(self), candidates, context, r),
    ;
}

/// Convenience selection that borrows the chosen candidate directly.
pub trait PolicyExt<C, Context: ?Sized>: Policy<C, Context> {
    /// Selects a candidate and returns a reference to it.
    fn choose_candidate<'a>(&mut self, candidates: &'a [C], context: &Context) -> (r: Result<&'a C, PickError>)
        ensures
            r matches Err(e) ==> old(self).pick_outcome(final(self), candidates, context, Err(e)),
            r matches Ok(c) ==> exists|s: Selection|
                #[trigger] old(self).pick_outcome(final(self), candidates, context, Ok(s)) && s@ < candidates@.len()
                    && *c == candidates@[s@ as int],
    {
        match self.pick(candidates, context) {
            Ok(selection) => Ok(&candidates[selection.index()]),
            Err(e) => Err(e),
        }
    }
}

impl<P: Policy<C, Context>, C, Context: ?Sized> PolicyExt<C, Context> for P {
}

/// Whether the candidate at `i` accepts new work.
pub open spec fn eligible_at<C: Candidate>(cs: Seq<C>, i: int) -> bool {
    0 <= i < cs.len() && cs[i].spec_eligible()
}

/// Whether any candidate accepts new work.
pub open spec fn any_eligible<C: Candidate>(cs: Seq<C>) -> bool {
    exists|i: int| eligible_at(cs, i)
}

/// The number of eligible candidates among the first `n`.
pub open spec fn eligible_rank<C: Candidate>(cs: Seq<C>, n: int) -> int
    decreases n,
{
    if n <= 0 {
        0
    } else {
        eligible_rank(cs, n - 1) + if eligible_at(cs, n - 1) {
            1int
        } else {
            0int
        }
    }
}

/// Never more eligible candidates than candidates.
pub proof fn lemma_rank_bound<C: Candidate>(cs: Seq<C>, n: int)
    requires
        0 <= n,
    ensures
        0 <= eligible_rank(cs, n) <= n,
    decreases n,
{
    if n > 0 {
        lemma_rank_bound(cs, n - 1);
    }
}

/// Counting further never lowers the count, and passes an eligible candidate.
pub proof fn lemma_rank_step<C: Candidate>(cs: Seq<C>, a: int, b: int)
    requires
        0 <= a <= b,
    ensures
        eligible_rank(cs, a) <= eligible_rank(cs, b),
        eligible_at(cs, a) && a < b ==> eligible_rank(cs, a) < eligible_rank(cs, b),
    decreases b - a,
{
    if a < b {
        lemma_rank_step(cs, a, b - 1);
    }
}

/// The indices that successive decisions selected, -1 for a failed one.
pub open spec fn selected_indices(results: Seq<Result<Selection, PickError>>) -> Seq<int> {
    Seq::new(
        results.len(),
        |t: int|
            match results[t] {
                Ok(s) => s@ as int,
                Err(_) => -1,
            },
    )
}

/// The error reported when no candidate could be selected.
pub open spec fn spec_no_candidate_error(count: nat) -> PickError {
    if count == 0 {
        PickError::Empty
    } else {
        PickError::NoEligibleCandidates
    }
}

/// The position `offset` steps after `start` in a ring of `n` slots.
pub open spec fn ring_pos(start: int, offset: int, n: int) -> int {
    if start + offset < n {
        start + offset
    } else {
        start + offset - n
    }
}

/// How many steps after `start` the slot `i` lies in a ring of `n` slots.
pub open spec fn ring_offset(start: int, i: int, n: int) -> int {
    if i >= start {
        i - start
    } else {
        i + n - start
    }
}

pub(crate) fn no_candidate_error(count: usize) -> (e: PickError)
    ensures
        e == spec_no_candidate_error(count as nat),
{
    if count == 0 {
        PickError::Empty
    } else {
        PickError::NoEligibleCandidates
    }
}

/// The encoded identity of the candidate at `i`.
pub open spec fn key_at<C: Candidate>(cs: Seq<C>, i: int) -> Seq<u8> where C::Id: StableKey {
    cs[i].spec_id().key_bytes()
}

/// Whether no two eligible candidates share an identity.
pub open spec fn eligible_keys_unique<C: Candidate>(cs: Seq<C>) -> bool where C::Id: StableKey {
    forall|i: int, j: int|
        eligible_at(cs, i) && eligible_at(cs, j) && i != j ==> #[trigger] key_at(cs, i)
            != #[trigger] key_at(cs, j)
}

/// Reports whether two eligible candidates share an identity.
pub fn find_duplicate_eligible<C: Candidate>(candidates: &[C]) -> (dup: bool) where C::Id: StableKey
    ensures
        dup <==> !eligible_keys_unique(candidates@),
{
    let n = candidates.len();
    let mut i: usize = 0;
    while i < n
        invariant
            n == candidates@.len(),
            i <= n,
            forall|a: int, b: int|
                0 <= a < i && 0 <= b < n && a != b && eligible_at(candidates@, a) && eligible_at(
                    candidates@,
                    b,
                ) ==> #[trigger] key_at(candidates@, a) != #[trigger] key_at(candidates@, b),
        decreases n - i,
    {
        if candidates[i].is_eligible() {
            let mut j: usize = 0;
            while j < n
                invariant
                    n == candidates@.len(),
                    i < n,
                    j <= n,
                    eligible_at(candidates@, i as int),
                    forall|a: int, b: int|
                        0 <= a < i && 0 <= b < n && a != b && eligible_at(candidates@, a)
                            && eligible_at(candidates@, b) ==> #[trigger] key_at(candidates@, a)
                            != #[trigger] key_at(candidates@, b),
                    forall|b: int|
                        0 <= b < j && b != i && eligible_at(candidates@, b) ==> key_at(
                            candidates@,
                            i as int,
                        ) != #[trigger] key_at(candidates@, b),
                decreases n - j,
            {
                if j != i && candidates[j].is_eligible() && candidates[i].id().same_key(
                    candidates[j].id(),
                ) {
                    assert(key_at(candidates@, i as int) == key_at(candidates@, j as int));
                    return true;
                }
                j = j + 1;
            }
        }
        i = i + 1;
    }
    false
}


} // verus!
