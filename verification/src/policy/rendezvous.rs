use vstd::prelude::*;

use crate::backend::Candidate;
use crate::error::PickError;
use crate::hash::{
    FNV_OFFSET_BASIS, FnvBuildHasher, StableKey, fnv1a, lemma_fnv_concat, mix64,
    spec_fnv, spec_mix64,
};
use crate::selection::Selection;

use super::{Policy, any_eligible, eligible_at, no_candidate_error};

verus! {

/// The rendezvous score of a backend identity for a request key: the mixed
/// FNV-1a hash of `0`, the key, `1`, the identity. The domain separators
/// prevent concatenation ambiguity between the request key and the identity.
pub open spec fn spec_rendezvous_hash(context: Seq<u8>, identity: Seq<u8>) -> u64 {
    spec_mix64(fnv1a(seq![0u8] + context + seq![1u8] + identity))
}

/// The rendezvous score of the candidate at `i`.
pub open spec fn score_at<C: Candidate>(context: Seq<u8>, cs: Seq<C>, i: int) -> u64 where
    C::Id: StableKey,
 {
    spec_rendezvous_hash(context, cs[i].spec_id().key_bytes())
}

/// Whether `i` is the eligible candidate with the highest score, ties going
/// to the earliest slice position.
pub open spec fn rendezvous_winner<C: Candidate>(context: Seq<u8>, cs: Seq<C>, i: int) -> bool where
    C::Id: StableKey,
 {
    &&& eligible_at(cs, i)
    &&& forall|j: int|
        eligible_at(cs, j) ==> #[trigger] score_at(context, cs, j) <= score_at(context, cs, i)
    &&& forall|j: int|
        0 <= j < i && eligible_at(cs, j) ==> #[trigger] score_at(context, cs, j) < score_at(
            context,
            cs,
            i,
        )
}

pub proof fn lemma_fnv_one(state: u64, b: u8)
    ensures
        spec_fnv(state, seq![b]) == crate::hash::fnv_step(state, b),
{
    assert(seq![b].drop_last() =~= Seq::<u8>::empty());
    assert(spec_fnv(state, Seq::<u8>::empty()) == state);
}

/// Computes the rendezvous score of `identity` for `context`.
pub fn rendezvous_hash<K: StableKey + ?Sized, I: StableKey + ?Sized>(
    hash_builder: &FnvBuildHasher,
    context: &K,
    identity: &I,
) -> (h: u64)
    ensures
        h == spec_rendezvous_hash(context.key_bytes(), identity.key_bytes()),
{
    let mut hasher = hash_builder.build_hasher();
    hasher.write_u8(0);
    context.hash_into(&mut hasher);
    hasher.write_u8(1);
    identity.hash_into(&mut hasher);
    proof {
        let c = context.key_bytes();
        let d = identity.key_bytes();
        lemma_fnv_one(FNV_OFFSET_BASIS, 0u8);
        lemma_fnv_concat(FNV_OFFSET_BASIS, seq![0u8], c);
        let s1 = spec_fnv(FNV_OFFSET_BASIS, seq![0u8] + c);
        lemma_fnv_one(s1, 1u8);
        lemma_fnv_concat(FNV_OFFSET_BASIS, seq![0u8] + c, seq![1u8]);
        lemma_fnv_concat(FNV_OFFSET_BASIS, seq![0u8] + c + seq![1u8], d);
    }
    mix64(hasher.finish())
}

/// Key-affine selection using highest-random-weight (rendezvous) hashing.
///
/// Selection takes `O(n)` time and `O(1)` memory. Adding or removing a backend
/// only remaps keys whose winning relationship changed, making this useful for
/// caches, sharding, and sticky routing. The FNV hash is deterministic but not
/// collision resistant.
#[derive(Clone, Debug)]
pub struct Rendezvous {
    hash_builder: FnvBuildHasher,
}

impl Default for Rendezvous {
    fn default() -> (p: Self) {
        Rendezvous { hash_builder: FnvBuildHasher }
    }
}

impl Rendezvous {
    /// Creates a deterministic rendezvous policy.
    pub fn new() -> (p: Self) {
        Rendezvous { hash_builder: FnvBuildHasher }
    }

    /// Creates a rendezvous policy with the given hash builder.
    pub fn with_hasher(hash_builder: FnvBuildHasher) -> (p: Self) {
        Rendezvous { hash_builder }
    }

    /// Returns the configured hash builder.
    pub fn hash_builder(&self) -> (b: &FnvBuildHasher)
        ensures
            *b == FnvBuildHasher,
    {
        &self.hash_builder
    }

    /// Returns the hash builder, consuming the policy.
    pub fn into_hash_builder(self) -> (b: FnvBuildHasher)
        ensures
            b == FnvBuildHasher,
    {
        self.hash_builder
    }
}

/// Selects the eligible candidate with the highest rendezvous score for
/// `context`, the earliest on equal scores.
pub fn rendezvous_pick<C: Candidate, Context: StableKey + ?Sized>(
    hash_builder: &FnvBuildHasher,
    candidates: &[C],
    context: &Context,
) -> (r: Result<Selection, PickError>) where C::Id: StableKey
    ensures
        !any_eligible(candidates@) ==> r == Err::<Selection, PickError>(
            super::spec_no_candidate_error(candidates@.len()),
        ),
        any_eligible(candidates@) ==> r is Ok,
        r matches Ok(s) ==> rendezvous_winner(context.key_bytes(), candidates@, s@ as int),
{
    let n = candidates.len();
    let ghost ctx = context.key_bytes();
    let mut winner: Option<(usize, u64)> = None;
    let mut index: usize = 0;
    while index < n
        invariant
            n == candidates@.len(),
            index <= n,
            ctx == context.key_bytes(),
            winner is None ==> forall|j: int| 0 <= j < index ==> !eligible_at(candidates@, j),
            winner matches Some((w, ws)) ==> {
                &&& w < index
                &&& eligible_at(candidates@, w as int)
                &&& ws == score_at(ctx, candidates@, w as int)
                &&& forall|j: int|
                    0 <= j < index && eligible_at(candidates@, j) ==> #[trigger] score_at(
                        ctx,
                        candidates@,
                        j,
                    ) <= ws
                &&& forall|j: int|
                    0 <= j < w && eligible_at(candidates@, j) ==> #[trigger] score_at(
                        ctx,
                        candidates@,
                        j,
                    ) < ws
            },
        decreases n - index,
    {
        let candidate = &candidates[index];
        if candidate.is_eligible() {
            let score = rendezvous_hash(hash_builder, context, candidate.id());
            assert(score == score_at(ctx, candidates@, index as int));
            match winner {
                None => {
                    winner = Some((index, score));
                },
                Some((_, winning)) => {
                    if score > winning {
                        winner = Some((index, score));
                    }
                },
            }
        }
        index = index + 1;
    }
    match winner {
        None => {
            let e = no_candidate_error(n);
            Err(e)
        },
        Some((w, _)) => Ok(Selection::new(w)),
    }
}

impl<C: Candidate, Context: StableKey + ?Sized> Policy<C, Context> for Rendezvous where
    C::Id: StableKey,
 {
    open spec fn pick_outcome(
        &self,
        after: &Self,
        candidates: &[C],
        context: &Context,
        r: Result<Selection, PickError>,
    ) -> bool {
        &&& !any_eligible(candidates@) ==> r == Err::<Selection, PickError>(
            super::spec_no_candidate_error(candidates@.len()),
        )
        &&& any_eligible(candidates@) ==> r is Ok
        &&& r matches Ok(s) ==> rendezvous_winner(context.key_bytes(), candidates@, s@ as int)
    }

    fn pick(&mut self, candidates: &[C], context: &Context) -> (r: Result<Selection, PickError>) {
        rendezvous_pick(&self.hash_builder, candidates, context)
    }
}

/// At most one candidate is the rendezvous winner.
pub proof fn lemma_winner_unique<C: Candidate>(context: Seq<u8>, cs: Seq<C>, a: int, b: int) where
    C::Id: StableKey,
    requires
        rendezvous_winner(context, cs, a),
        rendezvous_winner(context, cs, b),
    ensures
        a == b,
{
    assert(score_at(context, cs, a) <= score_at(context, cs, b));
    assert(score_at(context, cs, b) <= score_at(context, cs, a));
}

/// Removing a candidate only remaps the requests it won: when the winner
/// over `cs` is not the removed candidate, the same candidate wins over the
/// rest.
pub proof fn lemma_removal_keeps_winner<C: Candidate>(context: Seq<u8>, cs: Seq<C>, removed: int, w: int) where
    C::Id: StableKey,
    requires
        0 <= removed < cs.len(),
        rendezvous_winner(context, cs, w),
        w != removed,
    ensures
        rendezvous_winner(context, cs.remove(removed), if w < removed { w } else { w - 1 }),
        cs.remove(removed)[if w < removed { w } else { w - 1 }] == cs[w],
{
    let rest = cs.remove(removed);
    let w2 = if w < removed { w } else { w - 1 };
    assert(rest[w2] == cs[w]);
    assert forall|j: int| eligible_at(rest, j) implies #[trigger] score_at(context, rest, j) <= score_at(
        context,
        rest,
        w2,
    ) by {
        let k = if j < removed { j } else { j + 1 };
        assert(rest[j] == cs[k]);
        assert(eligible_at(cs, k));
        assert(score_at(context, cs, k) <= score_at(context, cs, w));
    }
    assert forall|j: int| 0 <= j < w2 && eligible_at(rest, j) implies #[trigger] score_at(
        context,
        rest,
        j,
    ) < score_at(context, rest, w2) by {
        let k = if j < removed { j } else { j + 1 };
        assert(rest[j] == cs[k]);
        assert(eligible_at(cs, k));
        assert(k < w);
        assert(score_at(context, cs, k) < score_at(context, cs, w));
    }
}

/// Adding a candidate only moves requests to it: when the winner after
/// inserting `added` at position `at` is another candidate, that candidate
/// also won before.
pub proof fn lemma_addition_keeps_winner<C: Candidate>(
    context: Seq<u8>,
    cs: Seq<C>,
    at: int,
    added: C,
    w: int,
) where C::Id: StableKey
    requires
        0 <= at <= cs.len(),
        rendezvous_winner(context, cs.insert(at, added), w),
        w != at,
    ensures
        rendezvous_winner(context, cs, if w < at { w } else { w - 1 }),
        cs[if w < at { w } else { w - 1 }] == cs.insert(at, added)[w],
{
    let grown = cs.insert(at, added);
    lemma_removal_keeps_winner(context, grown, at, w);
    assert(grown.remove(at) =~= cs);
}

/// The winning identity does not depend on candidate order when eligible
/// candidates have distinct scores: over any reordering, the same candidate
/// wins.
pub proof fn lemma_order_independent<C: Candidate>(
    context: Seq<u8>,
    left: Seq<C>,
    right: Seq<C>,
    a: int,
    b: int,
) where C::Id: StableKey
    requires
        left.to_multiset() == right.to_multiset(),
        forall|i: int, j: int|
            eligible_at(left, i) && eligible_at(left, j) && i != j ==> #[trigger] score_at(
                context,
                left,
                i,
            ) != #[trigger] score_at(context, left, j),
        rendezvous_winner(context, left, a),
        rendezvous_winner(context, right, b),
    ensures
        left[a] == right[b],
{
    broadcast use vstd::seq_lib::group_to_multiset_ensures;

    assert(left.to_multiset().count(left[a]) > 0);
    assert(right.contains(left[a]));
    let k = choose|k: int| 0 <= k < right.len() && right[k] == left[a];
    assert(right.to_multiset().count(right[b]) > 0);
    assert(left.contains(right[b]));
    let m = choose|m: int| 0 <= m < left.len() && left[m] == right[b];
    assert(eligible_at(right, k));
    assert(score_at(context, right, k) == score_at(context, left, a));
    assert(score_at(context, left, m) == score_at(context, right, b));
    assert(eligible_at(left, m));
    assert(score_at(context, left, m) <= score_at(context, left, a));
    assert(score_at(context, right, k) <= score_at(context, right, b));
    if m != a {
        assert(score_at(context, left, m) != score_at(context, left, a));
    }
}

} // verus!
