//! Weighted rendezvous hashing over caller-supplied exponential scores.

use vstd::prelude::*;

use crate::backend::Candidate;
use crate::error::PickError;
use crate::hash::{FnvBuildHasher, StableKey};
use crate::selection::Selection;

use super::rendezvous::{rendezvous_hash, score_at};
use super::{any_eligible, eligible_at, no_candidate_error};

verus! {

/// The position of an `f64`'s bit pattern in IEEE 754 total order, as
/// `f64::total_cmp` compares: positive patterns in place, negative patterns
/// mirrored below them.
pub open spec fn spec_score_key(bits: u64) -> int {
    if bits < 0x8000_0000_0000_0000u64 {
        bits as int
    } else {
        0x7fff_ffff_ffff_ffff - bits as int
    }
}

/// Computes the total-order position of an `f64` bit pattern.
pub fn score_order_key(bits: u64) -> (k: i64)
    ensures
        k == spec_score_key(bits),
{
    if bits < 0x8000_0000_0000_0000u64 {
        bits as i64
    } else {
        let low = bits - 0x8000_0000_0000_0000u64;
        -1 - (low as i64)
    }
}

/// Whether a score beats the current winner: a smaller exponential score
/// wins, and equal scores go to the larger raw hash.
pub open spec fn spec_score_wins(score: u64, hash: u64, winning_score: u64, winning_hash: u64) -> bool {
    ||| spec_score_key(score) < spec_score_key(winning_score)
    ||| spec_score_key(score) == spec_score_key(winning_score) && hash > winning_hash
}

/// Decides whether the score bits `score` with raw hash `hash` beat the
/// current winner.
pub fn weighted_score_wins(score: u64, hash: u64, winning_score: u64, winning_hash: u64) -> (r: bool)
    ensures
        r == spec_score_wins(score, hash, winning_score, winning_hash),
{
    let key = score_order_key(score);
    let winning_key = score_order_key(winning_score);
    key < winning_key || (key == winning_key && hash > winning_hash)
}

/// Whether candidate `w` wins among the candidates in `pool`,
/// given their score bits: no pooled candidate beats it, and it beats every
/// earlier pooled candidate.
pub open spec fn best_scored<C: Candidate>(
    context: Seq<u8>,
    cs: Seq<C>,
    scores: Seq<u64>,
    pool: spec_fn(int) -> bool,
    w: int,
) -> bool where C::Id: StableKey {
    &&& 0 <= w < cs.len()
    &&& pool(w)
    &&& forall|j: int|
        0 <= j < cs.len() && pool(j) ==> !spec_score_wins(
            scores[j],
            #[trigger] score_at(context, cs, j),
            scores[w],
            score_at(context, cs, w),
        )
    &&& forall|j: int|
        0 <= j < w && pool(j) ==> spec_score_wins(
            scores[w],
            score_at(context, cs, w),
            scores[j],
            #[trigger] score_at(context, cs, j),
        )
}

/// Whether `w` is the weighted rendezvous winner among the eligible
/// candidates.
pub open spec fn weighted_winner<C: Candidate>(context: Seq<u8>, cs: Seq<C>, scores: Seq<u64>, w: int) -> bool where
    C::Id: StableKey,
 {
    best_scored(context, cs, scores, |j: int| eligible_at(cs, j), w)
}

/// Weighted rendezvous hashing with exponential scores.
///
/// Each eligible candidate scores `-ln(u) / weight`, with `u` drawn from its
/// rendezvous hash, and the smallest score wins, so a candidate wins in
/// proportion to its positive capacity weight. The scores are floating
/// point and are supplied as `f64` bit patterns; ties go to the larger raw
/// hash, then to the earliest candidate.
#[derive(Clone, Copy, Debug)]
pub struct WeightedRendezvous {
    hash_builder: FnvBuildHasher,
}

impl WeightedRendezvous {
    /// Creates a policy with deterministic FNV-1a hashing.
    pub fn new() -> (p: Self) {
        Self::with_hasher(FnvBuildHasher)
    }

    /// Creates a policy with the given hash builder.
    pub fn with_hasher(hash_builder: FnvBuildHasher) -> (p: Self) {
        WeightedRendezvous { hash_builder }
    }

    /// Returns the hash builder.
    pub fn hash_builder(&self) -> (b: &FnvBuildHasher)
        ensures
            *b == FnvBuildHasher,
    {
        &self.hash_builder
    }

    /// Returns the hash builder.
    pub fn into_hash_builder(self) -> (b: FnvBuildHasher)
        ensures
            b == FnvBuildHasher,
    {
        self.hash_builder
    }

    /// Selects the eligible candidate whose score bits win, given the score
    /// bits of every candidate in slice order.
    pub fn pick_scored<C: Candidate, Context: StableKey + ?Sized>(
        &self,
        candidates: &[C],
        context: &Context,
        scores: &[u64],
    ) -> (r: Result<Selection, PickError>) where C::Id: StableKey
        requires
            scores@.len() == candidates@.len(),
        ensures
            !any_eligible(candidates@) ==> r == Err::<Selection, PickError>(
                super::spec_no_candidate_error(candidates@.len()),
            ),
            any_eligible(candidates@) ==> (r matches Ok(s) && weighted_winner(
                context.key_bytes(),
                candidates@,
                scores@,
                s@ as int,
            )),
    {
        let n = candidates.len();
        let ghost ctx = context.key_bytes();
        let ghost pool = |j: int| eligible_at(candidates@, j);
        let mut winner: Option<(usize, u64, u64)> = None;
        let mut index: usize = 0;
        while index < n
            invariant
                n == candidates@.len(),
                n == scores@.len(),
                index <= n,
                ctx == context.key_bytes(),
                pool == (|j: int| eligible_at(candidates@, j)),
                winner is None ==> forall|j: int| 0 <= j < index ==> !eligible_at(candidates@, j),
                winner matches Some((w, ws, wh)) ==> {
                    &&& w < index
                    &&& eligible_at(candidates@, w as int)
                    &&& ws == scores@[w as int]
                    &&& wh == score_at(ctx, candidates@, w as int)
                    &&& forall|j: int|
                        0 <= j < index && eligible_at(candidates@, j) ==> !spec_score_wins(
                            scores@[j],
                            #[trigger] score_at(ctx, candidates@, j),
                            ws,
                            wh,
                        )
                    &&& forall|j: int|
                        0 <= j < w && eligible_at(candidates@, j) ==> spec_score_wins(
                            ws,
                            wh,
                            scores@[j],
                            #[trigger] score_at(ctx, candidates@, j),
                        )
                },
            decreases n - index,
        {
            if candidates[index].is_eligible() {
                let hash = rendezvous_hash(&self.hash_builder, context, candidates[index].id());
                let score = scores[index];
                assert(hash == score_at(ctx, candidates@, index as int));
                match winner {
                    None => {
                        winner = Some((index, score, hash));
                    },
                    Some((_, ws, wh)) => {
                        if weighted_score_wins(score, hash, ws, wh) {
                            winner = Some((index, score, hash));
                        }
                    },
                }
            }
            index = index + 1;
        }
        match winner {
            None => Err(no_candidate_error(n)),
            Some((w, _, _)) => Ok(Selection::new(w)),
        }
    }
}

impl Default for WeightedRendezvous {
    fn default() -> (p: Self) {
        Self::new()
    }
}

/// Removing a candidate, with its score, only remaps the requests it won:
/// when the weighted winner is another candidate, that candidate still wins
/// over the rest.
pub proof fn lemma_weighted_removal_keeps_winner<C: Candidate>(
    context: Seq<u8>,
    cs: Seq<C>,
    scores: Seq<u64>,
    removed: int,
    w: int,
) where C::Id: StableKey
    requires
        scores.len() == cs.len(),
        0 <= removed < cs.len(),
        weighted_winner(context, cs, scores, w),
        w != removed,
    ensures
        weighted_winner(
            context,
            cs.remove(removed),
            scores.remove(removed),
            if w < removed { w } else { w - 1 },
        ),
        cs.remove(removed)[if w < removed { w } else { w - 1 }] == cs[w],
{
    let rest = cs.remove(removed);
    let rs = scores.remove(removed);
    let w2 = if w < removed { w } else { w - 1 };
    assert(rest[w2] == cs[w]);
    assert(rs[w2] == scores[w]);
    assert forall|j: int| 0 <= j < rest.len() && eligible_at(rest, j) implies !spec_score_wins(
        rs[j],
        #[trigger] score_at(context, rest, j),
        rs[w2],
        score_at(context, rest, w2),
    ) by {
        let k = if j < removed { j } else { j + 1 };
        assert(rest[j] == cs[k]);
        assert(rs[j] == scores[k]);
        assert(eligible_at(cs, k));
        assert(!spec_score_wins(scores[k], score_at(context, cs, k), scores[w], score_at(context, cs, w)));
    }
    assert forall|j: int| 0 <= j < w2 && eligible_at(rest, j) implies spec_score_wins(
        rs[w2],
        score_at(context, rest, w2),
        rs[j],
        #[trigger] score_at(context, rest, j),
    ) by {
        let k = if j < removed { j } else { j + 1 };
        assert(rest[j] == cs[k]);
        assert(rs[j] == scores[k]);
        assert(eligible_at(cs, k));
        assert(k < w);
        assert(spec_score_wins(scores[w], score_at(context, cs, w), scores[k], score_at(context, cs, k)));
    }
}

/// Adding a candidate, with its score, only moves requests to it: when the
/// weighted winner after the insertion is another candidate, that candidate
/// also won before.
pub proof fn lemma_weighted_addition_keeps_winner<C: Candidate>(
    context: Seq<u8>,
    cs: Seq<C>,
    scores: Seq<u64>,
    at: int,
    added: C,
    added_score: u64,
    w: int,
) where C::Id: StableKey
    requires
        scores.len() == cs.len(),
        0 <= at <= cs.len(),
        weighted_winner(context, cs.insert(at, added), scores.insert(at, added_score), w),
        w != at,
    ensures
        weighted_winner(context, cs, scores, if w < at { w } else { w - 1 }),
        cs[if w < at { w } else { w - 1 }] == cs.insert(at, added)[w],
{
    lemma_weighted_removal_keeps_winner(context, cs.insert(at, added), scores.insert(at, added_score), at, w);
    assert(cs.insert(at, added).remove(at) =~= cs);
    assert(scores.insert(at, added_score).remove(at) =~= scores);
}

/// Changing one candidate's score, as a weight change does, never moves a
/// request between two other candidates: if neither winner is the changed
/// candidate, the winner is the same.
pub proof fn lemma_weight_change_keeps_winner<C: Candidate>(
    context: Seq<u8>,
    before: Seq<C>,
    after: Seq<C>,
    before_scores: Seq<u64>,
    after_scores: Seq<u64>,
    changed: int,
    a: int,
    b: int,
) where C::Id: StableKey
    requires
        before.len() == after.len(),
        before_scores.len() == before.len(),
        after_scores.len() == after.len(),
        forall|j: int| 0 <= j < before.len() && j != changed ==> #[trigger] before[j] == after[j],
        forall|j: int| 0 <= j < before.len() && j != changed ==> #[trigger] before_scores[j] == after_scores[j],
        weighted_winner(context, before, before_scores, a),
        weighted_winner(context, after, after_scores, b),
        a != changed,
        b != changed,
    ensures
        a == b,
{
    assert(before[a] == after[a]);
    assert(before[b] == after[b]);
    assert(eligible_at(before, b));
    assert(eligible_at(after, a));
    assert(!spec_score_wins(before_scores[b], score_at(context, before, b), before_scores[a], score_at(context, before, a)));
    assert(!spec_score_wins(after_scores[a], score_at(context, after, a), after_scores[b], score_at(context, after, b)));
    if a < b {
        assert(spec_score_wins(after_scores[b], score_at(context, after, b), after_scores[a], score_at(context, after, a)));
    } else if b < a {
        assert(spec_score_wins(before_scores[a], score_at(context, before, a), before_scores[b], score_at(context, before, b)));
    }
}

/// The weighted winner's identity does not depend on candidate order:
/// reordering the candidates together with their scores selects the same
/// candidate, with the same score, when no two eligible candidates share
/// both score bits and raw hash.
pub proof fn lemma_weighted_order_independent<C: Candidate>(
    context: Seq<u8>,
    left: Seq<C>,
    left_scores: Seq<u64>,
    right: Seq<C>,
    right_scores: Seq<u64>,
    a: int,
    b: int,
) where C::Id: StableKey
    requires
        left_scores.len() == left.len(),
        right_scores.len() == right.len(),
        left.zip_with(left_scores).to_multiset() == right.zip_with(right_scores).to_multiset(),
        forall|i: int, j: int|
            eligible_at(left, i) && eligible_at(left, j) && i != j && left_scores[i] == left_scores[j] ==> #[trigger] score_at(
                context,
                left,
                i,
            ) != #[trigger] score_at(context, left, j),
        weighted_winner(context, left, left_scores, a),
        weighted_winner(context, right, right_scores, b),
    ensures
        left[a] == right[b],
        left_scores[a] == right_scores[b],
{
    broadcast use vstd::seq_lib::group_to_multiset_ensures;

    let lz = left.zip_with(left_scores);
    let rz = right.zip_with(right_scores);
    assert(lz[a] == (left[a], left_scores[a]));
    assert(lz.to_multiset().count(lz[a]) > 0);
    assert(rz.contains(lz[a]));
    let k = choose|k: int| 0 <= k < rz.len() && rz[k] == lz[a];
    assert(rz[b] == (right[b], right_scores[b]));
    assert(rz.to_multiset().count(rz[b]) > 0);
    assert(lz.contains(rz[b]));
    let m = choose|m: int| 0 <= m < lz.len() && lz[m] == rz[b];
    assert(right[k] == left[a] && right_scores[k] == left_scores[a]);
    assert(left[m] == right[b] && left_scores[m] == right_scores[b]);
    assert(eligible_at(right, k));
    assert(eligible_at(left, m));
    assert(score_at(context, right, k) == score_at(context, left, a));
    assert(score_at(context, left, m) == score_at(context, right, b));
    assert(!spec_score_wins(left_scores[m], score_at(context, left, m), left_scores[a], score_at(context, left, a)));
    assert(!spec_score_wins(right_scores[k], score_at(context, right, k), right_scores[b], score_at(context, right, b)));
    if m != a {
        assert(left_scores[m] == left_scores[a]);
        assert(score_at(context, left, m) != score_at(context, left, a));
    }
}

} // verus!
