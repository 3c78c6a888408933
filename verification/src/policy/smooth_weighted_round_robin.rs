use vstd::prelude::*;

use crate::backend::Candidate;
use crate::error::PickError;
use crate::hash::{StableKey, bytes_equal};
use crate::selection::Selection;

use super::{
    Policy, any_eligible, eligible_at, eligible_keys_unique, eligible_rank, find_duplicate_eligible, key_at, selected_indices,
};

verus! {

/// The retained scheduling credit of one identity.
#[derive(Clone, Debug)]
struct Credit {
    key: Vec<u8>,
    current: i128,
}

/// The sum of the weights of the eligible candidates among the first `n`.
pub open spec fn eligible_weight_total<C: Candidate>(cs: Seq<C>, n: int) -> int
    decreases n,
{
    if n <= 0 {
        0
    } else {
        eligible_weight_total(cs, n - 1) + if eligible_at(cs, n - 1) {
            cs[n - 1].spec_weight()@ as int
        } else {
            0
        }
    }
}

/// The credit an identity carries into a decision.
pub open spec fn prior_credit(credits: Map<Seq<u8>, i128>, key: Seq<u8>) -> i128 {
    if credits.contains_key(key) {
        credits[key]
    } else {
        0
    }
}

/// The credit of the candidate at `i` after its weight is added.
pub open spec fn raised_credit<C: Candidate>(credits: Map<Seq<u8>, i128>, cs: Seq<C>, i: int) -> i128 where
    C::Id: StableKey,
 {
    vstd::wrapping::i128_specs::wrapping_add(
        prior_credit(credits, key_at(cs, i)),
        cs[i].spec_weight()@ as i128,
    )
}

/// Whether `i` is the eligible candidate with the greatest raised credit, the
/// earliest on ties.
pub open spec fn swrr_winner<C: Candidate>(credits: Map<Seq<u8>, i128>, cs: Seq<C>, i: int) -> bool where
    C::Id: StableKey,
 {
    &&& eligible_at(cs, i)
    &&& forall|j: int|
        eligible_at(cs, j) ==> #[trigger] raised_credit(credits, cs, j) <= raised_credit(
            credits,
            cs,
            i,
        )
    &&& forall|j: int|
        0 <= j < i && eligible_at(cs, j) ==> #[trigger] raised_credit(credits, cs, j)
            < raised_credit(credits, cs, i)
}

/// Whether one decision over `cs` that starts from the credits `before`
/// selects `s` and leaves the credits `after`: every eligible identity gains
/// its weight, the winner pays the total eligible weight, and only eligible
/// identities keep credit.
pub open spec fn swrr_step<C: Candidate>(
    before: Map<Seq<u8>, i128>,
    cs: Seq<C>,
    s: int,
    after: Map<Seq<u8>, i128>,
) -> bool where C::Id: StableKey {
    let total = eligible_weight_total(cs, cs.len() as int);
    &&& swrr_winner(before, cs, s)
    &&& forall|k: Seq<u8>|
        after.contains_key(k) <==> exists|i: int| eligible_at(cs, i) && #[trigger] key_at(cs, i) == k
    &&& forall|i: int|
        eligible_at(cs, i) ==> after[#[trigger] key_at(cs, i)] == if i == s {
            vstd::wrapping::i128_specs::wrapping_sub(raised_credit(before, cs, i), total as i128)
        } else {
            raised_credit(before, cs, i)
        }
}

/// How many of the first `t` picks of a run selected slot `i`.
pub open spec fn picks_of(picks: Seq<int>, t: int, i: int) -> int
    decreases t,
{
    if t <= 0 {
        0
    } else {
        picks_of(picks, t - 1, i) + if picks[t - 1] == i {
            1int
        } else {
            0int
        }
    }
}

/// The sum of `f` over the eligible slots among the first `k`.
pub open spec fn eligible_sum<C: Candidate>(cs: Seq<C>, k: int, f: spec_fn(int) -> int) -> int
    decreases k,
{
    if k <= 0 {
        0
    } else {
        eligible_sum(cs, k - 1, f) + if eligible_at(cs, k - 1) {
            f(k - 1)
        } else {
            0
        }
    }
}

spec fn weight_of<C: Candidate>(cs: Seq<C>) -> spec_fn(int) -> int {
    |i: int| cs[i].spec_weight()@ as int
}

proof fn lemma_weight_sum<C: Candidate>(cs: Seq<C>, k: int)
    ensures
        eligible_sum(cs, k, weight_of(cs)) == eligible_weight_total(cs, k),
    decreases k,
{
    if k > 0 {
        lemma_weight_sum(cs, k - 1);
    }
}

proof fn lemma_weight_within_total<C: Candidate>(cs: Seq<C>, k: int, i: int)
    requires
        eligible_at(cs, i),
        i < k,
    ensures
        cs[i].spec_weight()@ as int <= eligible_weight_total(cs, k),
        0 <= eligible_weight_total(cs, k),
    decreases k,
{
    if k - 1 > i {
        lemma_weight_within_total(cs, k - 1, i);
    } else {
        lemma_total_nonnegative(cs, k - 1);
    }
}

proof fn lemma_total_nonnegative<C: Candidate>(cs: Seq<C>, k: int)
    ensures
        0 <= eligible_weight_total(cs, k),
    decreases k,
{
    if k > 0 {
        lemma_total_nonnegative(cs, k - 1);
    }
}

proof fn lemma_count_step<C: Candidate>(cs: Seq<C>, picks: Seq<int>, t: int, k: int)
    requires
        0 <= t < picks.len(),
    ensures
        eligible_sum(cs, k, |i: int| picks_of(picks, t + 1, i)) == eligible_sum(cs, k, |i: int| picks_of(picks, t, i))
            + if 0 <= picks[t] < k && eligible_at(cs, picks[t]) {
            1int
        } else {
            0int
        },
    decreases k,
{
    if k > 0 {
        lemma_count_step(cs, picks, t, k - 1);
    }
}

proof fn lemma_count_total<C: Candidate>(cs: Seq<C>, picks: Seq<int>, t: int)
    requires
        0 <= t <= picks.len(),
        forall|j: int| 0 <= j < t ==> eligible_at(cs, #[trigger] picks[j]),
    ensures
        eligible_sum(cs, cs.len() as int, |i: int| picks_of(picks, t, i)) == t,
    decreases t,
{
    if t == 0 {
        lemma_sum_zero(cs, picks, cs.len() as int);
    } else {
        lemma_count_total(cs, picks, t - 1);
        lemma_count_step(cs, picks, t - 1, cs.len() as int);
        assert(eligible_at(cs, picks[t - 1]));
    }
}

proof fn lemma_sum_zero<C: Candidate>(cs: Seq<C>, picks: Seq<int>, k: int)
    ensures
        eligible_sum(cs, k, |i: int| picks_of(picks, 0, i)) == 0,
    decreases k,
{
    if k > 0 {
        lemma_sum_zero(cs, picks, k - 1);
    }
}

proof fn lemma_raised_sum<C: Candidate>(cs: Seq<C>, picks: Seq<int>, t: int, total: int, k: int)
    ensures
        eligible_sum(cs, k, |i: int| (t + 1) * (cs[i].spec_weight()@ as int) - total * picks_of(picks, t, i)) == (t
            + 1) * eligible_weight_total(cs, k) - total * eligible_sum(cs, k, |i: int| picks_of(picks, t, i)),
    decreases k,
{
    if k > 0 {
        lemma_raised_sum(cs, picks, t, total, k - 1);
        let e = eligible_weight_total(cs, k - 1);
        let c = eligible_sum(cs, k - 1, |i: int| picks_of(picks, t, i));
        let w = cs[k - 1].spec_weight()@ as int;
        let p = picks_of(picks, t, k - 1);
        assert((t + 1) * e - total * c + ((t + 1) * w - total * p) == (t + 1) * (e + w) - total * (c + p))
            by (nonlinear_arith);
    }
}

proof fn lemma_positive_term<C: Candidate>(cs: Seq<C>, k: int, f: spec_fn(int) -> int) -> (j: int)
    requires
        eligible_sum(cs, k, f) > 0,
    ensures
        eligible_at(cs, j),
        f(j) > 0,
    decreases k,
{
    if eligible_sum(cs, k - 1, f) > 0 {
        lemma_positive_term(cs, k - 1, f)
    } else {
        k - 1
    }
}

proof fn lemma_tight_sum<C: Candidate>(cs: Seq<C>, k: int, f: spec_fn(int) -> int, g: spec_fn(int) -> int)
    requires
        forall|i: int| 0 <= i < k && eligible_at(cs, i) ==> #[trigger] f(i) <= g(i),
    ensures
        eligible_sum(cs, k, f) <= eligible_sum(cs, k, g),
        eligible_sum(cs, k, f) == eligible_sum(cs, k, g) ==> forall|i: int|
            0 <= i < k && eligible_at(cs, i) ==> #[trigger] f(i) == g(i),
    decreases k,
{
    if k > 0 {
        lemma_tight_sum(cs, k - 1, f, g);
        if k - 1 >= 0 && eligible_at(cs, k - 1) {
            assert(f(k - 1) <= g(k - 1));
        }
    }
}

proof fn lemma_credit_bounds(t: int, w: int, c: int, total: int)
    requires
        0 <= t <= total,
        0 <= c <= w <= total,
        total < 0x4000_0000_0000_0000,
    ensures
        -(total * total) <= t * w - total * c <= total * total,
        total * total < 0x1000_0000_0000_0000_0000_0000_0000_0000,
{
    assert(0 <= t * w <= total * total) by (nonlinear_arith)
        requires
            0 <= t <= total,
            0 <= w <= total,
    ;
    assert(0 <= total * c <= total * total) by (nonlinear_arith)
        requires
            0 <= c <= total,
    ;
    assert(total * total < 0x1000_0000_0000_0000_0000_0000_0000_0000) by (nonlinear_arith)
        requires
            0 <= total < 0x4000_0000_0000_0000,
    ;
}

/// The credits and pick counts along a run of decisions from empty credits.
proof fn lemma_run_credits<C: Candidate>(
    cs: Seq<C>,
    states: Seq<Map<Seq<u8>, i128>>,
    picks: Seq<int>,
    t: int,
) where C::Id: StableKey
    requires
        eligible_weight_total(cs, cs.len() as int) < 0x4000_0000_0000_0000,
        picks.len() == eligible_weight_total(cs, cs.len() as int),
        states.len() == picks.len() + 1,
        states[0] == Map::<Seq<u8>, i128>::empty(),
        forall|j: int| 0 <= j < picks.len() ==> swrr_step(states[j], cs, #[trigger] picks[j], states[j + 1]),
        0 <= t <= picks.len(),
    ensures
        forall|j: int| 0 <= j < t ==> eligible_at(cs, #[trigger] picks[j]),
        forall|i: int|
            eligible_at(cs, i) ==> 0 <= #[trigger] picks_of(picks, t, i) <= cs[i].spec_weight()@ as int,
        forall|i: int|
            eligible_at(cs, i) ==> prior_credit(states[t], key_at(cs, i)) as int == t * (cs[i].spec_weight()@ as int)
                - picks.len() * #[trigger] picks_of(picks, t, i),
        forall|i: int| !eligible_at(cs, i) ==> #[trigger] picks_of(picks, t, i) == 0,
    decreases t,
{
    let total = picks.len() as int;
    if t == 0 {
        assert forall|i: int| eligible_at(cs, i) implies prior_credit(states[0], key_at(cs, i)) as int == 0 * (
        cs[i].spec_weight()@ as int) - total * #[trigger] picks_of(picks, 0, i) by {
            assert(0 * (cs[i].spec_weight()@ as int) == 0) by (nonlinear_arith);
            assert(total * 0 == 0) by (nonlinear_arith);
        }
    } else {
        let u = t - 1;
        lemma_run_credits(cs, states, picks, u);
        let s = picks[u];
        assert(swrr_step(states[u], cs, s, states[u + 1]));
        let before = states[u];
        let after = states[u + 1];
        let f = |i: int| (u + 1) * (cs[i].spec_weight()@ as int) - total * picks_of(picks, u, i);
        // Every eligible identity gains its weight without wrapping.
        assert forall|i: int| eligible_at(cs, i) implies #[trigger] raised_credit(before, cs, i) as int == f(i) by {
            let w = cs[i].spec_weight()@ as int;
            lemma_weight_within_total(cs, cs.len() as int, i);
            lemma_credit_bounds(u, w, picks_of(picks, u, i), total);
            assert((u + 1) * w == u * w + w) by (nonlinear_arith);
        }
        // The raised credits sum to the total weight, so the winner's is positive.
        lemma_count_total(cs, picks, u);
        lemma_raised_sum(cs, picks, u, total, cs.len() as int);
        lemma_weight_sum(cs, cs.len() as int);
        assert((u + 1) * total - total * u == total) by (nonlinear_arith);
        lemma_total_nonnegative(cs, cs.len() as int);
        assert(total > 0);
        let j = lemma_positive_term(cs, cs.len() as int, f);
        assert(eligible_at(cs, s));
        assert(raised_credit(before, cs, j) <= raised_credit(before, cs, s));
        assert(f(s) > 0);
        let ws = cs[s].spec_weight()@ as int;
        lemma_weight_within_total(cs, cs.len() as int, s);
        assert(picks_of(picks, u, s) < ws) by (nonlinear_arith)
            requires
                total * picks_of(picks, u, s) < (u + 1) * ws,
                0 <= u + 1 <= total,
                0 <= ws,
        ;
        assert forall|j: int| 0 <= j < t implies eligible_at(cs, #[trigger] picks[j]) by {
            if j < u {
            } else {
                assert(j == u);
            }
        }
        assert forall|i: int| eligible_at(cs, i) implies 0 <= #[trigger] picks_of(picks, t, i) <= cs[i].spec_weight()@ as int by {
            assert(picks_of(picks, u, i) >= 0);
        }
        assert forall|i: int| !eligible_at(cs, i) implies #[trigger] picks_of(picks, t, i) == 0 by {
            assert(picks_of(picks, u, i) == 0);
        }
        assert forall|i: int| eligible_at(cs, i) implies prior_credit(after, key_at(cs, i)) as int == t * (
        cs[i].spec_weight()@ as int) - total * #[trigger] picks_of(picks, t, i) by {
            let w = cs[i].spec_weight()@ as int;
            assert(after.contains_key(key_at(cs, i)));
            assert(raised_credit(before, cs, i) as int == f(i));
            lemma_weight_within_total(cs, cs.len() as int, i);
            lemma_credit_bounds(u, w, picks_of(picks, u, i), total);
            if i == s {
                assert(picks_of(picks, t, i) == picks_of(picks, u, i) + 1);
                assert(t * w - total * (picks_of(picks, u, i) + 1) == f(i) - total) by (nonlinear_arith)
                    requires
                        t == u + 1,
                        f(i) == (u + 1) * w - total * picks_of(picks, u, i),
                ;
            } else {
                assert(picks_of(picks, t, i) == picks_of(picks, u, i));
            }
        }
    }
}

/// One full cycle of smooth weighted round-robin decisions from empty
/// credits, as many as the total eligible weight, over the same candidates,
/// selects every eligible candidate exactly as many times as its weight,
/// never an ineligible one, and leaves every credit at zero again.
pub proof fn lemma_cycle_conserves_weights<C: Candidate>(
    cs: Seq<C>,
    states: Seq<Map<Seq<u8>, i128>>,
    picks: Seq<int>,
) where C::Id: StableKey
    requires
        eligible_weight_total(cs, cs.len() as int) < 0x4000_0000_0000_0000,
        picks.len() == eligible_weight_total(cs, cs.len() as int),
        states.len() == picks.len() + 1,
        states[0] == Map::<Seq<u8>, i128>::empty(),
        forall|j: int| 0 <= j < picks.len() ==> swrr_step(states[j], cs, #[trigger] picks[j], states[j + 1]),
    ensures
        forall|i: int|
            eligible_at(cs, i) ==> #[trigger] picks_of(picks, picks.len() as int, i) == cs[i].spec_weight()@ as int,
        forall|i: int| !eligible_at(cs, i) ==> #[trigger] picks_of(picks, picks.len() as int, i) == 0,
        forall|i: int| eligible_at(cs, i) ==> prior_credit(states[picks.len() as int], #[trigger] key_at(cs, i)) == 0,
{
    let total = picks.len() as int;
    lemma_run_credits(cs, states, picks, total);
    lemma_count_total(cs, picks, total);
    lemma_weight_sum(cs, cs.len() as int);
    lemma_tight_sum(cs, cs.len() as int, |i: int| picks_of(picks, total, i), weight_of(cs));
    assert forall|i: int| eligible_at(cs, i) implies #[trigger] picks_of(picks, total, i) == cs[i].spec_weight()@ as int by {
        assert((|i: int| picks_of(picks, total, i))(i) == weight_of(cs)(i));
    }
    assert forall|i: int| eligible_at(cs, i) implies prior_credit(states[total], #[trigger] key_at(cs, i)) == 0 by {
        let w = cs[i].spec_weight()@ as int;
        assert(total * w - total * picks_of(picks, total, i) == 0) by (nonlinear_arith)
            requires
                picks_of(picks, total, i) == w,
        ;
    }
}

spec fn credit_map(s: Seq<Credit>) -> Map<Seq<u8>, i128> {
    Map::new(
        |k: Seq<u8>| exists|i: int| 0 <= i < s.len() && s[i].key@ == k,
        |k: Seq<u8>| s[choose|i: int| 0 <= i < s.len() && s[i].key@ == k].current,
    )
}

spec fn keys_distinct(s: Seq<Credit>) -> bool {
    forall|i: int, j: int|
        0 <= i < s.len() && 0 <= j < s.len() && i != j ==> #[trigger] s[i].key@ != #[trigger] s[j].key@
}

/// Smoothly distributes selections in proportion to backend capacity weights.
///
/// Unlike a replicated weighted schedule, this policy spreads high-weight
/// selections throughout the cycle. State is keyed by the candidate identity,
/// so it follows a backend across snapshot reordering. Removed and ineligible
/// identities are pruned after each decision; a later reappearance starts with
/// fresh state. Eligible identities must be unique.
#[derive(Debug)]
pub struct SmoothWeightedRoundRobin {
    states: Vec<Credit>,
    epoch: u64,
}

impl SmoothWeightedRoundRobin {
    #[verifier::type_invariant]
    spec fn wf(&self) -> bool {
        keys_distinct(self.states@)
    }

    /// The retained credit of each tracked identity.
    pub closed spec fn credits(&self) -> Map<Seq<u8>, i128> {
        credit_map(self.states@)
    }

    /// The number of decisions in the current epoch; zero after a reset.
    pub closed spec fn epoch(&self) -> u64 {
        self.epoch
    }

    /// The number of identities with retained state.
    pub closed spec fn retained(&self) -> nat {
        self.states@.len()
    }

    /// Creates an empty smooth weighted policy.
    pub fn new() -> (p: Self)
        ensures
            p.credits() == Map::<Seq<u8>, i128>::empty(),
            p.retained() == 0,
            p.epoch() == 0,
    {
        let states: Vec<Credit> = Vec::new();
        proof {
            assert(states@.len() == 0);
        }
        let p = SmoothWeightedRoundRobin { states, epoch: 0 };
        proof {
            assert(p.credits() =~= Map::<Seq<u8>, i128>::empty());
        }
        p
    }

    /// Returns the number of candidate identities with retained state.
    pub fn tracked_len(&self) -> (n: usize)
        ensures
            n == self.retained(),
    {
        self.states.len()
    }

    /// Clears all accumulated scheduling state.
    pub fn reset(&mut self)
        ensures
            final(self).credits() == Map::<Seq<u8>, i128>::empty(),
            final(self).retained() == 0,
            final(self).epoch() == 0,
    {
        let states: Vec<Credit> = Vec::new();
        proof {
            assert(states@.len() == 0);
        }
        self.states = states;
        self.epoch = 0;
        proof {
            assert(self.credits() =~= Map::<Seq<u8>, i128>::empty());
        }
    }

    fn lookup(states: &Vec<Credit>, key: &Vec<u8>) -> (r: i128)
        requires
            keys_distinct(states@),
        ensures
            r == prior_credit(credit_map(states@), key@),
    {
        let n = states.len();
        let mut i: usize = 0;
        while i < n
            invariant
                n == states@.len(),
                keys_distinct(states@),
                i <= n,
                forall|j: int| 0 <= j < i ==> states@[j].key@ != key@,
            decreases n - i,
        {
            if bytes_equal(states[i].key.as_slice(), key.as_slice()) {
                proof {
                    assert(states@[i as int].key@ == key@);
                    let m = credit_map(states@);
                    assert(m.contains_key(key@));
                    let c = choose|j: int| 0 <= j < states@.len() && states@[j].key@ == key@;
                    assert(c == i as int);
                }
                return states[i].current;
            }
            i = i + 1;
        }
        proof {
            assert(!credit_map(states@).contains_key(key@));
        }
        0
    }

    /// Selects the eligible candidate with the greatest raised credit and
    /// charges it the total eligible weight.
    pub fn pick_smooth<C: Candidate>(&mut self, candidates: &[C]) -> (r: Result<Selection, PickError>) where
        C::Id: StableKey,
        ensures
            candidates@.len() == 0 ==> {
                &&& r == Err::<Selection, PickError>(PickError::Empty)
                &&& final(self).credits() == Map::<Seq<u8>, i128>::empty()
                &&& final(self).epoch() == old(self).epoch()
            },
            candidates@.len() > 0 && !eligible_keys_unique(candidates@) ==> {
                &&& r == Err::<Selection, PickError>(PickError::DuplicateIdentity)
                &&& final(self).credits() == Map::<Seq<u8>, i128>::empty()
                &&& final(self).epoch() == 0
            },
            candidates@.len() > 0 && eligible_keys_unique(candidates@) ==> final(self).epoch() == (
            if old(self).epoch() == u64::MAX {
                1
            } else {
                old(self).epoch() + 1
            }),
            candidates@.len() > 0 && eligible_keys_unique(candidates@) && !any_eligible(candidates@)
                ==> {
                &&& r == Err::<Selection, PickError>(PickError::NoEligibleCandidates)
                &&& final(self).credits() == Map::<Seq<u8>, i128>::empty()
            },
            eligible_keys_unique(candidates@) && any_eligible(candidates@) ==> r is Ok,
            r is Err ==> final(self).retained() == 0,
            r is Ok ==> final(self).retained() == eligible_rank(candidates@, candidates@.len() as int),
            r matches Ok(s) ==> {
                let base = if old(self).epoch() == u64::MAX {
                    Map::<Seq<u8>, i128>::empty()
                } else {
                    old(self).credits()
                };
                &&& eligible_keys_unique(candidates@)
                &&& swrr_step(base, candidates@, s@ as int, final(self).credits())
            },
    {
        proof {
            use_type_invariant(&*self);
        }
        let n = candidates.len();
        if n == 0 {
            let states: Vec<Credit> = Vec::new();
            proof {
                assert(states@.len() == 0);
            }
            self.states = states;
            proof {
                assert(self.credits() =~= Map::<Seq<u8>, i128>::empty());
            }
            return Err(PickError::Empty);
        }
        if find_duplicate_eligible(candidates) {
            self.reset();
            return Err(PickError::DuplicateIdentity);
        }
        let ghost old_states = self.states@;
        let mut base: Vec<Credit> = Vec::new();
        std::mem::swap(&mut base, &mut self.states);
        if self.epoch == u64::MAX {
            base = Vec::new();
            self.epoch = 1;
        } else {
            self.epoch = self.epoch + 1;
        }
        let ghost base_map = credit_map(base@);
        proof {
            if old(self).epoch() == u64::MAX {
                assert(base_map =~= Map::<Seq<u8>, i128>::empty());
            } else {
                assert(base@ == old_states);
            }
        }
        let mut next: Vec<Credit> = Vec::new();
        let ghost mut origin: Seq<int> = Seq::empty();
        let mut total: i128 = 0;
        let mut winner: Option<(usize, usize, i128)> = None;
        let mut index: usize = 0;
        while index < n
            invariant
                n == candidates@.len(),
                index <= n,
                keys_distinct(base@),
                base_map == credit_map(base@),
                eligible_keys_unique(candidates@),
                origin.len() == next@.len(),
                next@.len() == eligible_rank(candidates@, index as int),
                total as int == eligible_weight_total(candidates@, index as int),
                0 <= total <= index * 0xffff_ffff,
                forall|j: int|
                    0 <= j < next@.len() ==> {
                        &&& 0 <= #[trigger] origin[j] < index
                        &&& eligible_at(candidates@, origin[j])
                        &&& next@[j].key@ == key_at(candidates@, origin[j])
                        &&& next@[j].current == raised_credit(base_map, candidates@, origin[j])
                    },
                forall|i: int|
                    0 <= i < index && eligible_at(candidates@, i) ==> exists|j: int|
                        0 <= j < next@.len() && #[trigger] origin[j] == i,
                forall|a: int, b: int|
                    0 <= a < next@.len() && 0 <= b < next@.len() && a != b ==> #[trigger] origin[a]
                        != #[trigger] origin[b],
                winner is None ==> forall|i: int| 0 <= i < index ==> !eligible_at(candidates@, i),
                winner matches Some((w, wpos, wc)) ==> {
                    &&& w < index
                    &&& wpos < next@.len()
                    &&& origin[wpos as int] == w
                    &&& eligible_at(candidates@, w as int)
                    &&& wc == raised_credit(base_map, candidates@, w as int)
                    &&& forall|j: int|
                        0 <= j < index && eligible_at(candidates@, j) ==> #[trigger] raised_credit(
                            base_map,
                            candidates@,
                            j,
                        ) <= wc
                    &&& forall|j: int|
                        0 <= j < w && eligible_at(candidates@, j) ==> #[trigger] raised_credit(
                            base_map,
                            candidates@,
                            j,
                        ) < wc
                },
            decreases n - index,
        {
            let candidate = &candidates[index];
            if candidate.is_eligible() {
                let key = candidate.id().encode();
                let prior = Self::lookup(&base, &key);
                let weight = candidate.weight().get();
                let current = prior.wrapping_add(weight as i128);
                assert(current == raised_credit(base_map, candidates@, index as int));
                total = total + weight as i128;
                let pos = next.len();
                let ghost old_origin = origin;
                next.push(Credit { key, current });
                proof {
                    origin = origin.push(index as int);
                    assert forall|i: int|
                        0 <= i < index + 1 && eligible_at(candidates@, i) implies exists|j: int|
                        0 <= j < next@.len() && #[trigger] origin[j] == i by {
                        if i == index {
                            assert(origin[pos as int] == i);
                        } else {
                            let j = choose|j: int| 0 <= j < old_origin.len() && #[trigger] old_origin[j] == i;
                            assert(origin[j] == i);
                        }
                    }
                }
                match winner {
                    None => {
                        winner = Some((index, pos, current));
                    },
                    Some((_, _, wc)) => {
                        if current > wc {
                            winner = Some((index, pos, current));
                        }
                    },
                }
            }
            index = index + 1;
        }
        match winner {
            None => {
                proof {
                    assert(next@.len() == 0) by {
                        if next@.len() > 0 {
                            assert(eligible_at(candidates@, origin[0]));
                        }
                    }
                    assert(credit_map(next@) =~= Map::<Seq<u8>, i128>::empty());
                }
                self.states = next;
                Err(PickError::NoEligibleCandidates)
            },
            Some((w, wpos, wc)) => {
                let charged = wc.wrapping_sub(total);
                proof {
                    assert(charged == vstd::wrapping::i128_specs::wrapping_sub(wc, total));
                }
                let ghost before = next@;
                let key = candidates[w].id().encode();
                proof {
                    assert(key@ == before[wpos as int].key@);
                }
                next.set(wpos, Credit { key, current: charged });
                proof {
                    let fin = next@;
                    assert forall|a: int, b: int|
                        0 <= a < fin.len() && 0 <= b < fin.len() && a != b implies #[trigger] fin[a].key@
                        != #[trigger] fin[b].key@ by {
                        assert(fin[a].key@ == key_at(candidates@, origin[a]));
                        assert(fin[b].key@ == key_at(candidates@, origin[b]));
                    }
                    let m = credit_map(fin);
                    assert forall|k: Seq<u8>|
                        m.contains_key(k) <==> exists|i: int|
                            eligible_at(candidates@, i) && #[trigger] key_at(candidates@, i) == k by {
                        if m.contains_key(k) {
                            let j = choose|j: int| 0 <= j < fin.len() && fin[j].key@ == k;
                            assert(key_at(candidates@, origin[j]) == k);
                        }
                        if exists|i: int| eligible_at(candidates@, i) && #[trigger] key_at(candidates@, i) == k {
                            let i = choose|i: int| eligible_at(candidates@, i) && #[trigger] key_at(candidates@, i) == k;
                            let j = choose|j: int| 0 <= j < next@.len() && #[trigger] origin[j] == i;
                            assert(fin[j].key@ == k);
                        }
                    }
                    assert forall|i: int| eligible_at(candidates@, i) implies m[#[trigger] key_at(
                        candidates@,
                        i,
                    )] == if i == w {
                        vstd::wrapping::i128_specs::wrapping_sub(raised_credit(base_map, candidates@, i), total)
                    } else {
                        raised_credit(base_map, candidates@, i)
                    } by {
                        let j = choose|j: int| 0 <= j < next@.len() && #[trigger] origin[j] == i;
                        assert(fin[j].key@ == key_at(candidates@, i));
                        let c = choose|c: int| 0 <= c < fin.len() && fin[c].key@ == key_at(candidates@, i);
                        assert(c == j);
                        if i == w {
                            assert(j == wpos);
                        } else {
                            assert(j != wpos);
                        }
                    }
                }
                self.states = next;
                Ok(Selection::new(w))
            },
        }
    }
}

impl<C: Candidate> Policy<C, ()> for SmoothWeightedRoundRobin where C::Id: StableKey {
    open spec fn pick_outcome(
        &self,
        after: &Self,
        candidates: &[C],
        context: &(),
        r: Result<Selection, PickError>,
    ) -> bool {
        &&& candidates@.len() == 0 ==> {
            &&& r == Err::<Selection, PickError>(PickError::Empty)
            &&& after.credits() == Map::<Seq<u8>, i128>::empty()
            &&& after.epoch() == self.epoch()
        }
        &&& candidates@.len() > 0 && !eligible_keys_unique(candidates@) ==> {
            &&& r == Err::<Selection, PickError>(PickError::DuplicateIdentity)
            &&& after.credits() == Map::<Seq<u8>, i128>::empty()
            &&& after.epoch() == 0
        }
        &&& candidates@.len() > 0 && eligible_keys_unique(candidates@) ==> after.epoch() == (
        if self.epoch() == u64::MAX {
            1
        } else {
            self.epoch() + 1
        })
        &&& candidates@.len() > 0 && eligible_keys_unique(candidates@) && !any_eligible(candidates@)
            ==> {
            &&& r == Err::<Selection, PickError>(PickError::NoEligibleCandidates)
            &&& after.credits() == Map::<Seq<u8>, i128>::empty()
        }
        &&& eligible_keys_unique(candidates@) && any_eligible(candidates@) ==> r is Ok
        &&& r is Err ==> after.retained() == 0
        &&& r is Ok ==> after.retained() == eligible_rank(candidates@, candidates@.len() as int)
        &&& r matches Ok(s) ==> {
            let base = if self.epoch() == u64::MAX {
                Map::<Seq<u8>, i128>::empty()
            } else {
                self.credits()
            };
            &&& eligible_keys_unique(candidates@)
            &&& swrr_step(base, candidates@, s@ as int, after.credits())
        }
    }

    fn pick(&mut self, candidates: &[C], context: &()) -> (r: Result<Selection, PickError>) {
        self.pick_smooth(candidates)
    }
}

/// Without eligible candidates the eligible weight is zero.
proof fn lemma_total_without_eligible<C: Candidate>(cs: Seq<C>, k: int)
    requires
        !any_eligible(cs),
    ensures
        eligible_weight_total(cs, k) == 0,
    decreases k,
{
    if k > 0 {
        lemma_total_without_eligible(cs, k - 1);
        assert(!eligible_at(cs, k - 1));
    }
}

/// The policy before the `t`-th of successive picks from a fresh policy has
/// counted `t` decisions.
proof fn lemma_successive_epochs<C: Candidate>(
    candidates: &[C],
    policies: Seq<SmoothWeightedRoundRobin>,
    results: Seq<Result<Selection, PickError>>,
    t: int,
) where C::Id: StableKey
    requires
        eligible_keys_unique(candidates@),
        candidates@.len() > 0,
        results.len() < 0x4000_0000_0000_0000,
        policies.len() == results.len() + 1,
        policies[0].epoch() == 0,
        forall|j: int|
            0 <= j < results.len() ==> #[trigger] policies[j].pick_outcome(
                &policies[j + 1],
                candidates,
                &(),
                results[j],
            ),
        0 <= t <= results.len(),
    ensures
        policies[t].epoch() == t,
    decreases t,
{
    if t > 0 {
        let k = t - 1;
        lemma_successive_epochs(candidates, policies, results, k);
        assert(policies[k].pick_outcome(&policies[k + 1], candidates, &(), results[k]));
    }
}

/// Successive smooth weighted picks over the same uniquely named candidates,
/// starting from a fresh policy and as many as the total eligible weight,
/// each made by the policy the previous one left, all succeed and select
/// every eligible candidate exactly as often as its weight and no other;
/// every retained credit is zero again afterwards, so the next as many picks
/// make the same choices.
pub proof fn lemma_successive_picks_conserve_weights<C: Candidate>(
    candidates: &[C],
    policies: Seq<SmoothWeightedRoundRobin>,
    results: Seq<Result<Selection, PickError>>,
) where C::Id: StableKey
    requires
        eligible_keys_unique(candidates@),
        candidates@.len() > 0,
        eligible_weight_total(candidates@, candidates@.len() as int) < 0x4000_0000_0000_0000,
        results.len() == eligible_weight_total(candidates@, candidates@.len() as int),
        policies.len() == results.len() + 1,
        policies[0].credits() == Map::<Seq<u8>, i128>::empty(),
        policies[0].epoch() == 0,
        forall|t: int|
            0 <= t < results.len() ==> #[trigger] policies[t].pick_outcome(
                &policies[t + 1],
                candidates,
                &(),
                results[t],
            ),
    ensures
        forall|t: int| 0 <= t < results.len() ==> #[trigger] results[t] is Ok,
        forall|i: int|
            eligible_at(candidates@, i) ==> #[trigger] picks_of(selected_indices(results), results.len() as int, i)
                == candidates@[i].spec_weight()@ as int,
        forall|i: int|
            !eligible_at(candidates@, i) ==> #[trigger] picks_of(selected_indices(results), results.len() as int, i)
                == 0,
        forall|i: int|
            eligible_at(candidates@, i) ==> prior_credit(
                policies[results.len() as int].credits(),
                #[trigger] key_at(candidates@, i),
            ) == 0,
{
    let cs = candidates@;
    let total = results.len() as int;
    let picks = selected_indices(results);
    let states = Seq::new((total + 1) as nat, |t: int| policies[t].credits());
    if total > 0 {
        assert(any_eligible(cs)) by {
            if !any_eligible(cs) {
                lemma_total_without_eligible(cs, cs.len() as int);
            }
        }
    }
    assert forall|t: int| 0 <= t < total implies #[trigger] results[t] is Ok by {
        assert(policies[t].pick_outcome(&policies[t + 1], candidates, &(), results[t]));
    }
    assert forall|j: int| 0 <= j < picks.len() implies swrr_step(states[j], cs, #[trigger] picks[j], states[j + 1]) by {
        lemma_successive_epochs(candidates, policies, results, j);
        assert(policies[j].pick_outcome(&policies[j + 1], candidates, &(), results[j]));
        assert(results[j] is Ok);
    }
    lemma_cycle_conserves_weights(cs, states, picks);
}

} // verus!
