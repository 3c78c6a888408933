//! Weighted rendezvous affinity with a per-candidate load bound.

use vstd::prelude::*;

use crate::backend::Candidate;
use crate::error::PickError;
use crate::hash::{FnvBuildHasher, StableKey};
use crate::load::LoadCount;
use crate::selection::Selection;

use super::eligible_at;
use super::rendezvous::{rendezvous_hash, score_at};
use super::weighted_rendezvous::{best_scored, spec_score_wins, weighted_score_wins};

verus! {

/// Default balance factor: a candidate may take 150% of its weighted share.
pub const DEFAULT_BALANCE_FACTOR_PERCENT: u32 = 150;

/// Load-bound policy for [`BoundedLoadRendezvous`].
#[derive(Clone, Copy, Debug, PartialEq, Eq, Structural, Hash)]
pub struct BoundedLoadConfig {
    balance_factor_percent: u32,
}

/// Invalid bounded-load configuration.
#[derive(Clone, Copy, Debug, PartialEq, Eq, Structural, Hash)]
pub enum BoundedLoadConfigError {
    /// The balance factor is below the average share.
    BelowAverage,
}

impl BoundedLoadConfigError {
    /// Describes the error.
    pub fn message(&self) -> (m: String)
        ensures
            m@ == "bounded-load balance factor must be at least 100 percent"@,
    {
        String::from_str("bounded-load balance factor must be at least 100 percent")
    }
}

impl BoundedLoadConfig {
    #[verifier::type_invariant]
    spec fn config_valid(self) -> bool {
        self.balance_factor_percent >= 100
    }

    /// The balance factor in percent of a candidate's weighted share.
    pub closed spec fn spec_balance_factor_percent(self) -> u32 {
        self.balance_factor_percent
    }

    /// Creates a load bound of `balance_factor_percent` percent of each
    /// candidate's weighted share; it must be at least 100.
    pub fn new(balance_factor_percent: u32) -> (r: Result<Self, BoundedLoadConfigError>)
        ensures
            balance_factor_percent < 100 ==> r == Err::<Self, BoundedLoadConfigError>(
                BoundedLoadConfigError::BelowAverage,
            ),
            balance_factor_percent >= 100 ==> (r matches Ok(c) && c.spec_balance_factor_percent()
                == balance_factor_percent),
    {
        if balance_factor_percent < 100 {
            return Err(BoundedLoadConfigError::BelowAverage);
        }
        Ok(BoundedLoadConfig { balance_factor_percent })
    }

    /// Returns the balance factor, at least 100.
    pub fn balance_factor_percent(self) -> (f: u32)
        ensures
            f == self.spec_balance_factor_percent(),
            f >= 100,
    {
        proof {
            use_type_invariant(self);
        }
        self.balance_factor_percent
    }
}

impl Default for BoundedLoadConfig {
    fn default() -> (c: Self)
        ensures
            c.spec_balance_factor_percent() == DEFAULT_BALANCE_FACTOR_PERCENT,
    {
        BoundedLoadConfig { balance_factor_percent: DEFAULT_BALANCE_FACTOR_PERCENT }
    }
}

/// The affinity choice and the candidate that received the request.
#[derive(Clone, Copy, Debug, PartialEq, Eq, Structural, Hash)]
pub struct BoundedLoadDecision {
    selection: Selection,
    affinity: Selection,
    selected_load: u64,
    selected_capacity: u128,
}

impl BoundedLoadDecision {
    /// The candidate that received the request.
    pub closed spec fn spec_selection(self) -> Selection {
        self.selection
    }

    /// The unbounded weighted-rendezvous choice.
    pub closed spec fn spec_affinity(self) -> Selection {
        self.affinity
    }

    /// The selected candidate's load before this request.
    pub closed spec fn spec_selected_load(self) -> u64 {
        self.selected_load
    }

    /// The selected candidate's load bound for this request.
    pub closed spec fn spec_selected_capacity(self) -> u128 {
        self.selected_capacity
    }

    /// Returns the candidate that received the request.
    pub fn selection(self) -> (s: Selection)
        ensures
            s == self.spec_selection(),
    {
        self.selection
    }

    /// Returns the unbounded affinity choice.
    pub fn affinity(self) -> (s: Selection)
        ensures
            s == self.spec_affinity(),
    {
        self.affinity
    }

    /// Whether the request spilled away from its affinity choice.
    pub fn spilled(self) -> (b: bool)
        ensures
            b == (self.spec_selection()@ != self.spec_affinity()@),
    {
        self.selection.index() != self.affinity.index()
    }

    /// Returns the selected candidate's load before this request.
    pub fn selected_load(self) -> (l: u64)
        ensures
            l == self.spec_selected_load(),
    {
        self.selected_load
    }

    /// Returns the selected candidate's load bound.
    pub fn selected_capacity(self) -> (c: u128)
        ensures
            c == self.spec_selected_capacity(),
    {
        self.selected_capacity
    }
}

/// The load of the candidate at `i`.
pub open spec fn count_at<C: Candidate>(cs: Seq<C>, i: int) -> int where C::Load: LoadCount {
    cs[i].spec_load().spec_count() as int
}

/// The summed load of the eligible candidates among the first `n`.
pub open spec fn eligible_load_sum<C: Candidate>(cs: Seq<C>, n: int) -> int where
    C::Load: LoadCount,
    decreases n,
{
    if n <= 0 {
        0
    } else {
        eligible_load_sum(cs, n - 1) + if eligible_at(cs, n - 1) {
            count_at(cs, n - 1)
        } else {
            0
        }
    }
}

/// The summed weight of the eligible candidates among the first `n`.
pub open spec fn eligible_weight_sum<C: Candidate>(cs: Seq<C>, n: int) -> int
    decreases n,
{
    if n <= 0 {
        0
    } else {
        eligible_weight_sum(cs, n - 1) + if eligible_at(cs, n - 1) {
            cs[n - 1].spec_weight()@ as int
        } else {
            0
        }
    }
}

/// The first overflow met while summing eligible loads and weights in slice
/// order, loads before weights for each candidate.
pub open spec fn sum_error<C: Candidate>(cs: Seq<C>, n: int) -> Option<PickError> where
    C::Load: LoadCount,
    decreases n,
{
    if n <= 0 {
        None
    } else {
        match sum_error(cs, n - 1) {
            Some(e) => Some(e),
            None => if !eligible_at(cs, n - 1) {
                None
            } else if eligible_load_sum(cs, n) > u64::MAX {
                Some(PickError::LoadOverflow)
            } else if eligible_weight_sum(cs, n) > u64::MAX {
                Some(PickError::WeightOverflow)
            } else {
                None
            },
        }
    }
}

/// A candidate's load bound: its weighted share of the prospective load,
/// scaled by the balance factor and rounded up.
pub open spec fn spec_capacity(prospective_load: int, weight: int, total_weight: int, factor: int) -> int {
    let numerator = prospective_load * weight * factor;
    let denominator = total_weight * 100;
    numerator / denominator + if numerator % denominator != 0 {
        1int
    } else {
        0int
    }
}

/// The load bound of the candidate at `i`.
pub open spec fn capacity_at<C: Candidate>(cs: Seq<C>, i: int, factor: int) -> int where
    C::Load: LoadCount,
 {
    spec_capacity(
        eligible_load_sum(cs, cs.len() as int) + 1,
        cs[i].spec_weight()@ as int,
        eligible_weight_sum(cs, cs.len() as int),
        factor,
    )
}

/// Whether the candidate at `i` is eligible and below its load bound.
pub open spec fn has_room<C: Candidate>(cs: Seq<C>, i: int, factor: int) -> bool where
    C::Load: LoadCount,
 {
    eligible_at(cs, i) && count_at(cs, i) < capacity_at(cs, i, factor)
}

/// Computes a load bound, rounding the weighted share up.
pub fn capacity_for(prospective_load: u64, weight: u32, total_weight: u64, factor_percent: u32) -> (c: u128)
    requires
        total_weight > 0,
    ensures
        c == spec_capacity(prospective_load as int, weight as int, total_weight as int, factor_percent as int),
{
    assert(prospective_load as int * weight as int <= 0xffff_ffff_ffff_ffff_ffff_ffff)
        by (nonlinear_arith)
        requires
            prospective_load <= u64::MAX,
            weight <= u32::MAX,
    ;
    let partial = prospective_load as u128 * weight as u128;
    assert(partial as int * factor_percent as int <= u128::MAX) by (nonlinear_arith)
        requires
            partial <= 0xffff_ffff_ffff_ffff_ffff_ffff,
            factor_percent <= u32::MAX,
    ;
    let numerator = partial * factor_percent as u128;
    let denominator = total_weight as u128 * 100;
    let quotient = numerator / denominator;
    let rounded = if numerator % denominator != 0 {
        1u128
    } else {
        0u128
    };
    assert(quotient <= numerator) by (nonlinear_arith)
        requires
            quotient == numerator / denominator,
            denominator >= 100,
    ;
    assert(quotient + rounded <= u128::MAX) by (nonlinear_arith)
        requires
            quotient == numerator / denominator,
            denominator >= 100,
            numerator <= u128::MAX,
            rounded <= 1,
    ;
    quotient + rounded
}

/// Weighted rendezvous affinity that spills to the next-best candidate when
/// the affinity choice is at its load bound.
///
/// Every eligible candidate's bound is its weighted share of the total load
/// plus this request, scaled by the balance factor. The request goes to the
/// best-scored candidate below its bound. The scores are the weighted
/// rendezvous scores, supplied as `f64` bit patterns.
#[derive(Clone, Copy, Debug)]
pub struct BoundedLoadRendezvous {
    config: BoundedLoadConfig,
    hash_builder: FnvBuildHasher,
}

impl BoundedLoadRendezvous {
    /// The configuration.
    pub closed spec fn spec_config(&self) -> BoundedLoadConfig {
        self.config
    }

    /// Creates a policy with deterministic FNV-1a hashing.
    pub fn new(config: BoundedLoadConfig) -> (p: Self)
        ensures
            p.spec_config() == config,
    {
        Self::with_hasher(config, FnvBuildHasher)
    }

    /// Creates a policy with the given hash builder.
    pub fn with_hasher(config: BoundedLoadConfig, hash_builder: FnvBuildHasher) -> (p: Self)
        ensures
            p.spec_config() == config,
    {
        BoundedLoadRendezvous { config, hash_builder }
    }

    /// Returns the configuration.
    pub fn config(&self) -> (c: BoundedLoadConfig)
        ensures
            c == self.spec_config(),
    {
        self.config
    }

    /// Returns the hash builder.
    pub fn hash_builder(&self) -> (b: &FnvBuildHasher)
        ensures
            *b == FnvBuildHasher,
    {
        &self.hash_builder
    }

    /// Decomposes the policy into configuration and hash builder.
    pub fn into_parts(self) -> (r: (BoundedLoadConfig, FnvBuildHasher))
        ensures
            r.0 == self.spec_config(),
    {
        (self.config, self.hash_builder)
    }
}

impl Default for BoundedLoadRendezvous {
    fn default() -> (p: Self)
        ensures
            p.spec_config().spec_balance_factor_percent() == DEFAULT_BALANCE_FACTOR_PERCENT,
    {
        Self::new(BoundedLoadConfig::default())
    }
}

/// Once summing overflows, the first overflow stays the answer.
proof fn lemma_sum_error_stable<C: Candidate>(cs: Seq<C>, k: int, n: int) where C::Load: LoadCount
    requires
        0 <= k <= n,
        sum_error(cs, k) is Some,
    ensures
        sum_error(cs, n) == sum_error(cs, k),
    decreases n - k,
{
    if k < n {
        lemma_sum_error_stable(cs, k, n - 1);
    }
}

/// Whether some candidate is eligible and below its load bound.
pub open spec fn any_room<C: Candidate>(cs: Seq<C>, factor: int) -> bool where C::Load: LoadCount {
    exists|i: int| #[trigger] has_room(cs, i, factor)
}

proof fn lemma_capacity_covers_share(count: int, cap: int, p: int, w: int, total: int, factor: int)
    requires
        count >= cap,
        cap == spec_capacity(p, w, total, factor),
        total > 0,
        p >= 0,
        w >= 0,
        factor >= 100,
    ensures
        count * total >= p * w,
{
    let num = p * w * factor;
    let den = total * 100;
    assert(den > 0) by (nonlinear_arith)
        requires
            den == total * 100,
            total > 0,
    ;
    let q = num / den;
    let r = num % den;
    assert(num == q * den + r && 0 <= r < den) by (nonlinear_arith)
        requires
            den > 0,
            q == num / den,
            r == num % den,
    ;
    assert(cap * den >= num) by (nonlinear_arith)
        requires
            cap == q + (if r != 0 { 1int } else { 0int }),
            num == q * den + r,
            0 <= r < den,
    ;
    assert(num >= p * w * 100) by (nonlinear_arith)
        requires
            num == p * w * factor,
            p >= 0,
            w >= 0,
            factor >= 100,
    ;
    assert(count * total >= p * w) by (nonlinear_arith)
        requires
            count >= cap,
            cap * den >= num,
            num >= p * w * 100,
            den == total * 100,
            total > 0,
    ;
}

proof fn lemma_weighted_sums<C: Candidate>(cs: Seq<C>, k: int, total: int, p: int) where C::Load: LoadCount
    requires
        0 <= k <= cs.len(),
        forall|i: int| 0 <= i < k && eligible_at(cs, i) ==> #[trigger] count_at(cs, i) * total >= p * (cs[i].spec_weight()@ as int),
    ensures
        eligible_load_sum(cs, k) * total >= p * eligible_weight_sum(cs, k),
    decreases k,
{
    if k > 0 {
        lemma_weighted_sums(cs, k - 1, total, p);
        let a = eligible_load_sum(cs, k - 1);
        let b = eligible_weight_sum(cs, k - 1);
        if eligible_at(cs, k - 1) {
            let c = count_at(cs, k - 1);
            let w = cs[k - 1].spec_weight()@ as int;
            assert(c * total >= p * w);
            assert((a + c) * total >= p * (b + w)) by (nonlinear_arith)
                requires
                    a * total >= p * b,
                    c * total >= p * w,
            ;
        }
    }
}

proof fn lemma_load_sum_nonneg<C: Candidate>(cs: Seq<C>, k: int) where C::Load: LoadCount
    ensures
        eligible_load_sum(cs, k) >= 0,
    decreases k,
{
    if k > 0 {
        lemma_load_sum_nonneg(cs, k - 1);
    }
}

proof fn lemma_weight_sum_nonneg<C: Candidate>(cs: Seq<C>, k: int)
    ensures
        eligible_weight_sum(cs, k) >= 0,
    decreases k,
{
    if k > 0 {
        lemma_weight_sum_nonneg(cs, k - 1);
    }
}

proof fn lemma_weight_sum_positive<C: Candidate>(cs: Seq<C>, k: int, i: int)
    requires
        0 <= i < k <= cs.len(),
        eligible_at(cs, i),
        cs[i].spec_weight()@ > 0,
    ensures
        eligible_weight_sum(cs, k) > 0,
    decreases k,
{
    if k - 1 > i {
        lemma_weight_sum_positive(cs, k - 1, i);
    } else {
        lemma_weight_sum_nonneg(cs, k - 1);
    }
}

/// With a balance factor of at least 100 percent, some eligible candidate is
/// always below its load bound: the bounds cover every candidate's weighted
/// share of the prospective load, which exceeds the current total.
pub proof fn lemma_bound_is_total<C: Candidate>(cs: Seq<C>, factor: int) where C::Load: LoadCount
    requires
        factor >= 100,
        super::any_eligible(cs),
        forall|i: int| 0 <= i < cs.len() ==> (#[trigger] cs[i].spec_weight())@ > 0,
    ensures
        any_room(cs, factor),
{
    let n = cs.len() as int;
    let total = eligible_weight_sum(cs, n);
    let load = eligible_load_sum(cs, n);
    let p = load + 1;
    let e = choose|i: int| eligible_at(cs, i);
    lemma_weight_sum_positive(cs, n, e);
    lemma_load_sum_nonneg(cs, n);
    if !any_room(cs, factor) {
        assert forall|i: int| 0 <= i < n && eligible_at(cs, i) implies #[trigger] count_at(cs, i) * total >= p * (
        cs[i].spec_weight()@ as int) by {
            assert(!has_room(cs, i, factor));
            lemma_capacity_covers_share(
                count_at(cs, i),
                capacity_at(cs, i, factor),
                p,
                cs[i].spec_weight()@ as int,
                total,
                factor,
            );
        }
        lemma_weighted_sums(cs, n, total, p);
        assert(false) by (nonlinear_arith)
            requires
                load * total >= p * total,
                p == load + 1,
                total > 0,
        ;
    }
}

impl BoundedLoadRendezvous {
    /// Decides where a request goes, given the weighted rendezvous score bits
    /// of every candidate in slice order.
    ///
    /// The affinity is the best-scored eligible candidate; the selection is
    /// the best-scored eligible candidate below its load bound.
    pub fn decide_scored<C: Candidate, Context: StableKey + ?Sized>(
        &self,
        candidates: &[C],
        context: &Context,
        scores: &[u64],
    ) -> (r: Result<BoundedLoadDecision, PickError>) where C::Id: StableKey, C::Load: LoadCount
        requires
            scores@.len() == candidates@.len(),
        ensures
            ({
                let cs = candidates@;
                let n = cs.len() as int;
                let factor = self.spec_config().spec_balance_factor_percent() as int;
                let ctx = context.key_bytes();
                let load = eligible_load_sum(cs, n);
                &&& n == 0 ==> r == Err::<BoundedLoadDecision, PickError>(PickError::Empty)
                &&& n > 0 && !super::any_eligible(cs) ==> r == Err::<BoundedLoadDecision, PickError>(
                    PickError::NoEligibleCandidates,
                )
                &&& super::any_eligible(cs) && sum_error(cs, n) is Some ==> r == Err::<
                    BoundedLoadDecision,
                    PickError,
                >(sum_error(cs, n)->0)
                &&& super::any_eligible(cs) && sum_error(cs, n) is None && load == u64::MAX ==> r
                    == Err::<BoundedLoadDecision, PickError>(PickError::LoadOverflow)
                &&& super::any_eligible(cs) && sum_error(cs, n) is None && load < u64::MAX
                    && !any_room(cs, factor) ==> r == Err::<BoundedLoadDecision, PickError>(
                    PickError::StateCapacityExceeded,
                )
                &&& super::any_eligible(cs) && sum_error(cs, n) is None && load < u64::MAX
                    && any_room(cs, factor) ==> (r matches Ok(d) && best_scored(
                    ctx,
                    cs,
                    scores@,
                    |j: int| eligible_at(cs, j),
                    d.spec_affinity()@ as int,
                ) && best_scored(
                    ctx,
                    cs,
                    scores@,
                    |j: int| has_room(cs, j, factor),
                    d.spec_selection()@ as int,
                ) && d.spec_selected_load() == count_at(cs, d.spec_selection()@ as int)
                    && d.spec_selected_capacity() == capacity_at(
                    cs,
                    d.spec_selection()@ as int,
                    factor,
                ))
            }),
    {
        let n = candidates.len();
        if n == 0 {
            return Err(PickError::Empty);
        }
        let mut total_load: u64 = 0;
        let mut total_weight: u64 = 0;
        let mut found = false;
        let mut loads: Vec<u64> = Vec::new();
        let mut index: usize = 0;
        while index < n
            invariant
                n == candidates@.len(),
                index <= n,
                loads@.len() == index,
                forall|j: int| 0 <= j < index && eligible_at(candidates@, j) ==> #[trigger] loads@[j] == count_at(candidates@, j),
                sum_error(candidates@, index as int) is None,
                total_load == eligible_load_sum(candidates@, index as int),
                total_weight == eligible_weight_sum(candidates@, index as int),
                found <==> exists|j: int| 0 <= j < index && eligible_at(candidates@, j),
                !found ==> total_weight == 0,
                found ==> total_weight > 0,
            decreases n - index,
        {
            let candidate = &candidates[index];
            if candidate.is_eligible() {
                let load = candidate.load().count();
                let weight = candidate.weight().get();
                match total_load.checked_add(load) {
                    Some(sum) => {
                        total_load = sum;
                    },
                    None => {
                        proof {
                            lemma_sum_error_stable(candidates@, index + 1, n as int);
                        }
                        return Err(PickError::LoadOverflow);
                    },
                }
                match total_weight.checked_add(weight as u64) {
                    Some(sum) => {
                        total_weight = sum;
                    },
                    None => {
                        proof {
                            lemma_sum_error_stable(candidates@, index + 1, n as int);
                        }
                        return Err(PickError::WeightOverflow);
                    },
                }
                found = true;
                loads.push(load);
            } else {
                loads.push(0);
            }
            index = index + 1;
        }
        if !found {
            return Err(PickError::NoEligibleCandidates);
        }
        let prospective = match total_load.checked_add(1) {
            Some(p) => p,
            None => {
                return Err(PickError::LoadOverflow);
            },
        };
        proof {
            use_type_invariant(&self.config);
        }
        let factor = self.config.balance_factor_percent;
        let ghost cs = candidates@;
        let ghost ctx = context.key_bytes();
        let ghost fac = factor as int;
        let mut affinity: Option<(usize, u64, u64)> = None;
        let mut selected: Option<(usize, u64, u64, u64, u128)> = None;
        index = 0;
        while index < n
            invariant
                n == cs.len(),
                cs == candidates@,
                n == scores@.len(),
                n == loads@.len(),
                forall|j: int| 0 <= j < n && eligible_at(cs, j) ==> #[trigger] loads@[j] == count_at(cs, j),
                index <= n,
                ctx == context.key_bytes(),
                fac == factor as int,
                fac == self.spec_config().spec_balance_factor_percent() as int,
                prospective == eligible_load_sum(cs, n as int) + 1,
                total_weight == eligible_weight_sum(cs, n as int),
                total_weight > 0,
                affinity is None ==> forall|j: int| 0 <= j < index ==> !eligible_at(cs, j),
                affinity matches Some((w, ws, wh)) ==> {
                    &&& w < index
                    &&& eligible_at(cs, w as int)
                    &&& ws == scores@[w as int]
                    &&& wh == score_at(ctx, cs, w as int)
                    &&& forall|j: int|
                        0 <= j < index && eligible_at(cs, j) ==> !spec_score_wins(
                            scores@[j],
                            #[trigger] score_at(ctx, cs, j),
                            ws,
                            wh,
                        )
                    &&& forall|j: int|
                        0 <= j < w && eligible_at(cs, j) ==> spec_score_wins(
                            ws,
                            wh,
                            scores@[j],
                            #[trigger] score_at(ctx, cs, j),
                        )
                },
                selected is None ==> forall|j: int| 0 <= j < index ==> !#[trigger] has_room(cs, j, fac),
                selected matches Some((w, ws, wh, wl, wc)) ==> {
                    &&& w < index
                    &&& has_room(cs, w as int, fac)
                    &&& ws == scores@[w as int]
                    &&& wh == score_at(ctx, cs, w as int)
                    &&& wl == count_at(cs, w as int)
                    &&& wc == capacity_at(cs, w as int, fac)
                    &&& forall|j: int|
                        0 <= j < index && has_room(cs, j, fac) ==> !spec_score_wins(
                            scores@[j],
                            #[trigger] score_at(ctx, cs, j),
                            ws,
                            wh,
                        )
                    &&& forall|j: int|
                        0 <= j < w && has_room(cs, j, fac) ==> spec_score_wins(
                            ws,
                            wh,
                            scores@[j],
                            #[trigger] score_at(ctx, cs, j),
                        )
                },
            decreases n - index,
        {
            let candidate = &candidates[index];
            if candidate.is_eligible() {
                let hash = rendezvous_hash(&self.hash_builder, context, candidate.id());
                let score = scores[index];
                let load = loads[index];
                let capacity = capacity_for(prospective, candidate.weight().get(), total_weight, factor);
                assert(hash == score_at(ctx, cs, index as int));
                let take_affinity = match affinity {
                    None => true,
                    Some((_, ws, wh)) => weighted_score_wins(score, hash, ws, wh),
                };
                if take_affinity {
                    affinity = Some((index, score, hash));
                }
                if (load as u128) < capacity {
                    let take_selected = match selected {
                        None => true,
                        Some((_, ws, wh, _, _)) => weighted_score_wins(score, hash, ws, wh),
                    };
                    if take_selected {
                        selected = Some((index, score, hash, load, capacity));
                    }
                }
            }
            index = index + 1;
        }
        match (affinity, selected) {
            (Some((a, _, _)), Some((s, _, _, load, capacity))) => Ok(
                BoundedLoadDecision {
                    selection: Selection::new(s),
                    affinity: Selection::new(a),
                    selected_load: load,
                    selected_capacity: capacity,
                },
            ),
            (_, None) => Err(PickError::StateCapacityExceeded),
            (None, Some(_)) => Err(PickError::StateCapacityExceeded),
        }
    }
}

/// The sum of `f` over the items of `s`.
pub open spec fn seq_total<T>(s: Seq<T>, f: spec_fn(T) -> int) -> int
    decreases s.len(),
{
    if s.len() == 0 {
        0
    } else {
        seq_total(s.drop_last(), f) + f(s.last())
    }
}

proof fn lemma_total_remove<T>(s: Seq<T>, f: spec_fn(T) -> int, j: int)
    requires
        0 <= j < s.len(),
    ensures
        seq_total(s, f) == seq_total(s.remove(j), f) + f(s[j]),
    decreases s.len(),
{
    if j < s.len() - 1 {
        lemma_total_remove(s.drop_last(), f, j);
        assert(s.remove(j).drop_last() =~= s.drop_last().remove(j));
        assert(s.remove(j).last() == s.last());
    } else {
        assert(s.remove(j) =~= s.drop_last());
    }
}

/// Sums do not depend on order: two sequences with the same items have the
/// same total.
proof fn lemma_total_reordered<T>(a: Seq<T>, b: Seq<T>, f: spec_fn(T) -> int)
    requires
        a.to_multiset() == b.to_multiset(),
    ensures
        seq_total(a, f) == seq_total(b, f),
    decreases a.len(),
{
    broadcast use vstd::seq_lib::group_to_multiset_ensures;

    vstd::seq_lib::to_multiset_len(a);
    vstd::seq_lib::to_multiset_len(b);
    if a.len() == 0 {
        assert(b.len() == 0);
    } else {
        let x = a.last();
        assert(a.to_multiset().count(x) > 0);
        let j = choose|j: int| 0 <= j < b.len() && b[j] == x;
        assert(a.drop_last() =~= a.remove(a.len() - 1));
        assert(a.drop_last().to_multiset() == b.remove(j).to_multiset());
        lemma_total_reordered(a.drop_last(), b.remove(j), f);
        lemma_total_remove(b, f, j);
    }
}

spec fn load_term<C: Candidate>() -> spec_fn((C, u64)) -> int where C::Load: LoadCount {
    |p: (C, u64)| if p.0.spec_eligible() { p.0.spec_load().spec_count() as int } else { 0 }
}

spec fn weight_term<C: Candidate>() -> spec_fn((C, u64)) -> int {
    |p: (C, u64)| if p.0.spec_eligible() { p.0.spec_weight()@ as int } else { 0 }
}

proof fn lemma_sums_as_totals<C: Candidate>(cs: Seq<C>, scores: Seq<u64>, n: int) where C::Load: LoadCount
    requires
        scores.len() == cs.len(),
        0 <= n <= cs.len(),
    ensures
        eligible_load_sum(cs, n) == seq_total(cs.zip_with(scores).take(n), load_term::<C>()),
        eligible_weight_sum(cs, n) == seq_total(cs.zip_with(scores).take(n), weight_term::<C>()),
    decreases n,
{
    let z = cs.zip_with(scores);
    if n > 0 {
        lemma_sums_as_totals(cs, scores, n - 1);
        assert(z.take(n).drop_last() =~= z.take(n - 1));
        assert(z.take(n).last() == (cs[n - 1], scores[n - 1]));
    } else {
        assert(z.take(0).len() == 0);
    }
}

/// The bounded-load winner's identity does not depend on candidate order:
/// reordering the candidates together with their scores selects the same
/// candidate, with the same score, when no two eligible candidates share
/// both score bits and raw hash. Load bounds depend on the candidates, not
/// their order.
pub proof fn lemma_bounded_order_independent<C: Candidate>(
    context: Seq<u8>,
    left: Seq<C>,
    left_scores: Seq<u64>,
    right: Seq<C>,
    right_scores: Seq<u64>,
    factor: int,
    a: int,
    b: int,
) where C::Id: StableKey, C::Load: LoadCount
    requires
        left_scores.len() == left.len(),
        right_scores.len() == right.len(),
        left.zip_with(left_scores).to_multiset() == right.zip_with(right_scores).to_multiset(),
        forall|i: int, j: int|
            eligible_at(left, i) && eligible_at(left, j) && i != j && left_scores[i] == left_scores[j] ==> #[trigger] score_at(
                context,
                left,
                i,
            ) != #[trigger] score_at(context, left, j),
        best_scored(context, left, left_scores, |j: int| has_room(left, j, factor), a),
        best_scored(context, right, right_scores, |j: int| has_room(right, j, factor), b),
    ensures
        left[a] == right[b],
        left_scores[a] == right_scores[b],
{
    broadcast use vstd::seq_lib::group_to_multiset_ensures;

    let lz = left.zip_with(left_scores);
    let rz = right.zip_with(right_scores);
    assert(lz.len() == left.len());
    assert(rz.len() == right.len());
    assert(left.len() == right.len()) by {
        vstd::seq_lib::to_multiset_len(lz);
        vstd::seq_lib::to_multiset_len(rz);
    }
    lemma_sums_as_totals(left, left_scores, left.len() as int);
    lemma_sums_as_totals(right, right_scores, right.len() as int);
    assert(lz.take(left.len() as int) =~= lz);
    assert(rz.take(right.len() as int) =~= rz);
    lemma_total_reordered(lz, rz, load_term::<C>());
    lemma_total_reordered(lz, rz, weight_term::<C>());
    assert(lz[a] == (left[a], left_scores[a]));
    assert(lz.to_multiset().count(lz[a]) > 0);
    let k = choose|k: int| 0 <= k < rz.len() && rz[k] == lz[a];
    assert(rz[b] == (right[b], right_scores[b]));
    assert(rz.to_multiset().count(rz[b]) > 0);
    let m = choose|m: int| 0 <= m < lz.len() && lz[m] == rz[b];
    assert(right[k] == left[a] && right_scores[k] == left_scores[a]);
    assert(left[m] == right[b] && left_scores[m] == right_scores[b]);
    assert(has_room(left, a, factor));
    assert(has_room(right, k, factor));
    assert(has_room(right, b, factor));
    assert(has_room(left, m, factor));
    assert(score_at(context, right, k) == score_at(context, left, a));
    assert(score_at(context, left, m) == score_at(context, right, b));
    assert(!spec_score_wins(left_scores[m], score_at(context, left, m), left_scores[a], score_at(context, left, a)));
    assert(!spec_score_wins(right_scores[k], score_at(context, right, k), right_scores[b], score_at(context, right, b)));
    if m != a {
        assert(left_scores[m] == left_scores[a]);
        assert(score_at(context, left, m) != score_at(context, left, a));
    }
}

} // verus!
