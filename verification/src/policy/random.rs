//! Uniform, weighted, and two-choice random selection over a seeded generator.

use vstd::prelude::*;

use rand::rngs::StdRng;
use rand::{RngExt, SeedableRng};

use crate::backend::Candidate;
use crate::error::PickError;
use crate::load::LoadMetric;
use crate::selection::Selection;

use super::{Policy, any_eligible, eligible_at, eligible_rank, lemma_rank_bound, lemma_rank_step, no_candidate_error};

verus! {

#[verifier::external_type_specification]
#[verifier::external_body]
pub struct ExStdRng(StdRng);

/// Seeds a generator from the thread-local generator, which the operating
/// system seeds. `StdRng::from_rng(&mut rand::rng())`: nothing is known of
/// the result.
#[verifier::external_body]
pub(crate) fn entropy_rng() -> StdRng {
    StdRng::from_rng(&mut rand::rng())
}

/// `SeedableRng::seed_from_u64`: a generator whose stream is fixed by
/// `seed`. The generator is opaque, so nothing is stated of it.
#[verifier::external_body]
pub(crate) fn seeded_rng(seed: u64) -> StdRng {
    StdRng::seed_from_u64(seed)
}

/// `RngExt::random_range(0..upper)` on `u64`: a value below `upper`; the
/// range must not be empty, or the call panics.
#[verifier::external_body]
pub(crate) fn random_below(rng: &mut StdRng, upper: u64) -> (r: u64)
    requires
        upper > 0,
    ensures
        r < upper,
{
    rng.random_range(0..upper)
}

/// `RngExt::random_range(0..upper)` on `usize`: a value below `upper`; the
/// range must not be empty, or the call panics.
#[verifier::external_body]
pub(crate) fn random_index(rng: &mut StdRng, upper: usize) -> (r: usize)
    requires
        upper > 0,
    ensures
        r < upper,
{
    rng.random_range(0..upper)
}

/// `RngExt::random::<bool>()`: a fair coin; nothing is stated of the result.
#[verifier::external_body]
pub(crate) fn random_flag(rng: &mut StdRng) -> bool {
    rng.random()
}

/// The summed weight of the eligible candidates among the first `n`.
pub open spec fn eligible_weight_prefix<C: Candidate>(cs: Seq<C>, n: int) -> int
    decreases n,
{
    if n <= 0 {
        0
    } else {
        eligible_weight_prefix(cs, n - 1) + if eligible_at(cs, n - 1) {
            cs[n - 1].spec_weight()@ as int
        } else {
            0
        }
    }
}

/// Whether the eligible candidate at `i` owns `ticket` when the eligible
/// weights are laid end to end in slice order.
pub open spec fn owns_ticket<C: Candidate>(cs: Seq<C>, ticket: int, i: int) -> bool {
    &&& eligible_at(cs, i)
    &&& eligible_weight_prefix(cs, i) <= ticket < eligible_weight_prefix(cs, i + 1)
}

/// Whether the candidate at `i` owns some ticket below the total eligible
/// weight.
pub open spec fn owns_some_ticket<C: Candidate>(cs: Seq<C>, i: int) -> bool {
    exists|ticket: int|
        0 <= ticket < eligible_weight_prefix(cs, cs.len() as int) && #[trigger] owns_ticket(cs, ticket, i)
}

proof fn lemma_weight_prefix_mono<C: Candidate>(cs: Seq<C>, a: int, b: int)
    requires
        0 <= a <= b,
    ensures
        eligible_weight_prefix(cs, a) <= eligible_weight_prefix(cs, b),
    decreases b - a,
{
    if a < b {
        lemma_weight_prefix_mono(cs, a, b - 1);
    }
}

/// Finds the eligible candidate that owns `ticket`.
pub fn select_by_ticket<C: Candidate>(candidates: &[C], ticket: u64) -> (i: usize)
    requires
        ticket < eligible_weight_prefix(candidates@, candidates@.len() as int),
    ensures
        owns_ticket(candidates@, ticket as int, i as int),
{
    let n = candidates.len();
    let mut rest = ticket;
    let mut index: usize = 0;
    while index < n
        invariant
            n == candidates@.len(),
            index <= n,
            rest as int == ticket as int - eligible_weight_prefix(candidates@, index as int),
            ticket < eligible_weight_prefix(candidates@, n as int),
            ticket as int >= eligible_weight_prefix(candidates@, index as int),
        decreases n - index,
    {
        if candidates[index].is_eligible() {
            let weight = candidates[index].weight().get() as u64;
            if rest < weight {
                return index;
            }
            rest = rest - weight;
        }
        index = index + 1;
    }
    proof {
        assert(false);
    }
    0
}

/// Uniform selection among eligible candidates, by reservoir sampling.
pub struct Random {
    rng: StdRng,
}

impl Random {
    /// The generator.
    pub closed spec fn spec_rng(&self) -> StdRng {
        self.rng
    }

    /// Creates a policy seeded from the operating system.
    pub fn new() -> (p: Self) {
        Self::with_rng(entropy_rng())
    }

    /// Creates a reproducible policy.
    pub fn seeded(seed: u64) -> (p: Self) {
        Self::with_rng(seeded_rng(seed))
    }

    /// Creates a policy over the given generator.
    pub fn with_rng(rng: StdRng) -> (p: Self)
        ensures
            p.spec_rng() == rng,
    {
        Random { rng }
    }

    /// Returns the generator.
    pub fn rng(&self) -> (r: &StdRng)
        ensures
            *r == self.spec_rng(),
    {
        &self.rng
    }

    /// Returns the generator mutably.
    pub fn rng_mut(&mut self) -> (r: &mut StdRng)
        ensures
            *r == old(self).spec_rng(),
            final(self).spec_rng() == *final(r),
    {
        &mut self.rng
    }

    /// Returns the generator.
    pub fn into_rng(self) -> (r: StdRng)
        ensures
            r == self.spec_rng(),
    {
        self.rng
    }
}

impl Default for Random {
    fn default() -> (p: Self) {
        Self::new()
    }
}

/// Whether `draws` are draws a reservoir sample may take over `cs`: one per
/// eligible candidate, the `j`-th below `j + 1`.
pub open spec fn reservoir_draws<C: Candidate>(cs: Seq<C>, draws: Seq<usize>) -> bool {
    &&& draws.len() == eligible_rank(cs, cs.len() as int)
    &&& forall|j: int| 0 <= j < draws.len() ==> #[trigger] draws[j] <= j
}

/// Whether `i` is what a reservoir sample over `cs` keeps with `draws`: the
/// last eligible candidate whose draw is zero.
pub open spec fn reservoir_winner<C: Candidate>(cs: Seq<C>, draws: Seq<usize>, i: int) -> bool {
    &&& eligible_at(cs, i)
    &&& draws[eligible_rank(cs, i)] == 0
    &&& forall|j: int| i < j < cs.len() && #[trigger] eligible_at(cs, j) ==> draws[eligible_rank(cs, j)] != 0
}

/// The candidate a reservoir sample keeps with the given draws: each
/// eligible candidate in slice order replaces the kept one when its draw is
/// zero.
pub fn reservoir_choice<C: Candidate>(candidates: &[C], draws: &[usize]) -> (i: usize)
    requires
        any_eligible(candidates@),
        reservoir_draws(candidates@, draws@),
    ensures
        reservoir_winner(candidates@, draws@, i as int),
{
    let ghost cs = candidates@;
    let n = candidates.len();
    let mut selected: usize = 0;
    let mut found = false;
    let mut seen: usize = 0;
    let mut index: usize = 0;
    while index < n
        invariant
            n == cs.len(),
            cs == candidates@,
            reservoir_draws(cs, draws@),
            index <= n,
            seen == eligible_rank(cs, index as int),
            !found ==> seen == 0,
            !found ==> forall|j: int| 0 <= j < index ==> !eligible_at(cs, j),
            found ==> selected < index && eligible_at(cs, selected as int) && draws@[eligible_rank(cs, selected as int)]
                == 0,
            found ==> forall|j: int| selected < j < index && #[trigger] eligible_at(cs, j) ==> draws@[eligible_rank(cs, j)]
                != 0,
        decreases n - index,
    {
        proof {
            lemma_rank_step(cs, index as int, n as int);
            lemma_rank_bound(cs, index as int);
        }
        let ghost before = selected;
        let ghost was_found = found;
        if candidates[index].is_eligible() {
            if draws[seen] == 0 {
                selected = index;
                found = true;
            }
            seen = seen + 1;
        }
        proof {
            if found && was_found && selected == before {
                assert forall|j: int| selected < j < index + 1 && #[trigger] eligible_at(cs, j) implies draws@[eligible_rank(cs, j)]
                    != 0 by {
                    if j < index {
                        lemma_rank_step(cs, j, index as int);
                    }
                }
            }
        }
        index = index + 1;
    }
    proof {
        if !found {
            let j = choose|j: int| eligible_at(cs, j);
            assert(false);
        }
    }
    selected
}

impl<C: Candidate> Policy<C, ()> for Random {
    open spec fn pick_outcome(
        &self,
        after: &Self,
        candidates: &[C],
        context: &(),
        r: Result<Selection, PickError>,
    ) -> bool {
        &&& !any_eligible(candidates@) ==> r == Err::<Selection, PickError>(
            super::spec_no_candidate_error(candidates@.len()),
        )
        &&& any_eligible(candidates@) ==> (r matches Ok(s) && eligible_at(candidates@, s@ as int))
        &&& r matches Ok(s) ==> exists|draws: Seq<usize>|
            #[trigger] reservoir_draws(candidates@, draws) && reservoir_winner(candidates@, draws, s@ as int)
    }

    /// Selects one eligible candidate, each with equal probability.
    fn pick(&mut self, candidates: &[C], context: &()) -> (r: Result<Selection, PickError>) {
        let ghost cs = candidates@;
        let n = candidates.len();
        let mut selected: Option<usize> = None;
        let mut seen: usize = 0;
        let mut index: usize = 0;
        let ghost mut draws: Seq<usize> = Seq::empty();
        while index < n
            invariant
                n == cs.len(),
                cs == candidates@,
                index <= n,
                seen == eligible_rank(cs, index as int),
                seen <= index,
                selected is None ==> seen == 0,
                draws.len() == seen,
                forall|j: int| 0 <= j < draws.len() ==> #[trigger] draws[j] <= j,
                selected is None ==> forall|j: int| 0 <= j < index ==> !eligible_at(cs, j),
                selected matches Some(s) ==> s < index && eligible_at(cs, s as int) && draws[eligible_rank(cs, s as int)]
                    == 0,
                selected matches Some(s) ==> forall|j: int| s < j < index && #[trigger] eligible_at(cs, j) ==> draws[eligible_rank(cs, j)]
                    != 0,
            decreases n - index,
        {
            proof {
                lemma_rank_bound(cs, index as int);
            }
            let ghost before = selected;
            let ghost old_draws = draws;
            if candidates[index].is_eligible() {
                seen = seen + 1;
                let draw = random_index(&mut self.rng, seen);
                proof {
                    draws = draws.push(draw);
                }
                if draw == 0 {
                    selected = Some(index);
                }
                proof {
                    if let Some(s) = selected {
                        if (s as int) < index {
                            lemma_rank_step(cs, s as int, index as int);
                            lemma_rank_bound(cs, s as int);
                            assert(draws[eligible_rank(cs, s as int)] == old_draws[eligible_rank(cs, s as int)]);
                        }
                        assert forall|j: int| s < j < index + 1 && #[trigger] eligible_at(cs, j) implies draws[eligible_rank(cs, j)]
                            != 0 by {
                            if j < index {
                                lemma_rank_step(cs, j, index as int);
                                lemma_rank_bound(cs, j);
                                assert(draws[eligible_rank(cs, j)] == old_draws[eligible_rank(cs, j)]);
                            }
                        }
                    }
                }
            }
            index = index + 1;
        }
        match selected {
            Some(s) => {
                proof {
                    assert(reservoir_draws(cs, draws) && reservoir_winner(cs, draws, s as int));
                }
                Ok(Selection::new(s))
            },
            None => Err(no_candidate_error(n)),
        }
    }
}

/// Selection proportional to eligible candidates' weights.
pub struct WeightedRandom {
    rng: StdRng,
}

impl WeightedRandom {
    /// The generator.
    pub closed spec fn spec_rng(&self) -> StdRng {
        self.rng
    }

    /// Creates a policy seeded from the operating system.
    pub fn new() -> (p: Self) {
        Self::with_rng(entropy_rng())
    }

    /// Creates a reproducible policy.
    pub fn seeded(seed: u64) -> (p: Self) {
        Self::with_rng(seeded_rng(seed))
    }

    /// Creates a policy over the given generator.
    pub fn with_rng(rng: StdRng) -> (p: Self)
        ensures
            p.spec_rng() == rng,
    {
        WeightedRandom { rng }
    }

    /// Returns the generator.
    pub fn rng(&self) -> (r: &StdRng)
        ensures
            *r == self.spec_rng(),
    {
        &self.rng
    }

    /// Returns the generator mutably.
    pub fn rng_mut(&mut self) -> (r: &mut StdRng)
        ensures
            *r == old(self).spec_rng(),
            final(self).spec_rng() == *final(r),
    {
        &mut self.rng
    }

    /// Returns the generator.
    pub fn into_rng(self) -> (r: StdRng)
        ensures
            r == self.spec_rng(),
    {
        self.rng
    }
}

impl Default for WeightedRandom {
    fn default() -> (p: Self) {
        Self::new()
    }
}

impl<C: Candidate> Policy<C, ()> for WeightedRandom {
    open spec fn pick_outcome(
        &self,
        after: &Self,
        candidates: &[C],
        context: &(),
        r: Result<Selection, PickError>,
    ) -> bool {
        &&& ({
            let total = eligible_weight_prefix(candidates@, candidates@.len() as int);
            &&& total > u64::MAX ==> r == Err::<Selection, PickError>(PickError::WeightOverflow)
            &&& total == 0 ==> r == Err::<Selection, PickError>(
                super::spec_no_candidate_error(candidates@.len()),
            )
            &&& 0 < total <= u64::MAX ==> (r matches Ok(s) && owns_some_ticket(candidates@, s@ as int))
        })
    }

    /// Draws a ticket below the total eligible weight and selects its owner,
    /// as [`select_by_ticket`] does.
    fn pick(&mut self, candidates: &[C], context: &()) -> (r: Result<Selection, PickError>) {
        let n = candidates.len();
        let mut total: u64 = 0;
        let mut index: usize = 0;
        while index < n
            invariant
                n == candidates@.len(),
                index <= n,
                total == eligible_weight_prefix(candidates@, index as int),
            decreases n - index,
        {
            if candidates[index].is_eligible() {
                match total.checked_add(candidates[index].weight().get() as u64) {
                    Some(sum) => {
                        total = sum;
                    },
                    None => {
                        proof {
                            lemma_weight_prefix_mono(candidates@, index + 1, n as int);
                        }
                        return Err(PickError::WeightOverflow);
                    },
                }
            }
            index = index + 1;
        }
        if total == 0 {
            return Err(no_candidate_error(n));
        }
        let ticket = random_below(&mut self.rng, total);
        let selected = select_by_ticket(candidates, ticket);
        let chosen = Selection::new(selected);
        assert(owns_ticket(candidates@, ticket as int, chosen@ as int));
        assert(0 <= ticket < eligible_weight_prefix(candidates@, candidates@.len() as int));
        assert(owns_some_ticket(candidates@, chosen@ as int));
        Ok(chosen)
    }
}

/// Samples two eligible candidates uniformly and selects the less loaded,
/// breaking ties at random.
pub struct PowerOfTwoChoices {
    rng: StdRng,
}

impl PowerOfTwoChoices {
    /// The generator.
    pub closed spec fn spec_rng(&self) -> StdRng {
        self.rng
    }

    /// Creates a policy seeded from the operating system.
    pub fn new() -> (p: Self) {
        Self::with_rng(entropy_rng())
    }

    /// Creates a reproducible policy.
    pub fn seeded(seed: u64) -> (p: Self) {
        Self::with_rng(seeded_rng(seed))
    }

    /// Creates a policy over the given generator.
    pub fn with_rng(rng: StdRng) -> (p: Self)
        ensures
            p.spec_rng() == rng,
    {
        PowerOfTwoChoices { rng }
    }

    /// Returns the generator.
    pub fn rng(&self) -> (r: &StdRng)
        ensures
            *r == self.spec_rng(),
    {
        &self.rng
    }

    /// Returns the generator mutably.
    pub fn rng_mut(&mut self) -> (r: &mut StdRng)
        ensures
            *r == old(self).spec_rng(),
            final(self).spec_rng() == *final(r),
    {
        &mut self.rng
    }

    /// Returns the generator.
    pub fn into_rng(self) -> (r: StdRng)
        ensures
            r == self.spec_rng(),
    {
        self.rng
    }
}

impl Default for PowerOfTwoChoices {
    fn default() -> (p: Self) {
        Self::new()
    }
}

/// The candidate holding reservoir slot `slot` after the first `n`
/// candidates, or -1: the first two eligible candidates take slots 0 and 1,
/// and each later one takes the slot its draw names, when that draw is below 2.
pub open spec fn slot_holder<C: Candidate>(cs: Seq<C>, draws: Seq<usize>, slot: int, n: int) -> int
    decreases n,
{
    if n <= 0 {
        -1
    } else {
        let r = eligible_rank(cs, n - 1);
        if eligible_at(cs, n - 1) && (r == slot || (r >= 2 && draws[r - 2] == slot)) {
            n - 1
        } else {
            slot_holder(cs, draws, slot, n - 1)
        }
    }
}

/// Whether `draws` are the slot draws a two-slot reservoir may take over
/// `cs`: one for each eligible candidate after the second, the `j`-th below
/// `j + 3`.
pub open spec fn two_choice_draws<C: Candidate>(cs: Seq<C>, draws: Seq<usize>) -> bool {
    let total = eligible_rank(cs, cs.len() as int);
    &&& draws.len() == (if total >= 2 {
        total - 2
    } else {
        0
    })
    &&& forall|j: int| 0 <= j < draws.len() ==> #[trigger] draws[j] <= j + 2
}

/// The candidate that two-choice selection settles on with the given slot
/// draws and tie coin: the less loaded of the two slot holders, the coin
/// deciding between equal loads, or the only holder.
pub open spec fn two_choice_answer<C: Candidate>(cs: Seq<C>, draws: Seq<usize>, coin: bool) -> int
    where C::Load: LoadMetric
{
    let a = slot_holder(cs, draws, 0, cs.len() as int);
    let b = slot_holder(cs, draws, 1, cs.len() as int);
    if b < 0 {
        a
    } else {
        let la = cs[a].spec_load().spec_measure();
        let lb = cs[b].spec_load().spec_measure();
        if la < lb {
            a
        } else if lb < la {
            b
        } else if coin {
            a
        } else {
            b
        }
    }
}

proof fn lemma_slot_holder_bounds<C: Candidate>(cs: Seq<C>, draws: Seq<usize>, slot: int, n: int)
    requires
        0 <= n <= cs.len(),
        0 <= slot <= 1,
    ensures
        -1 <= slot_holder(cs, draws, slot, n) < n,
        slot_holder(cs, draws, slot, n) >= 0 ==> eligible_at(cs, slot_holder(cs, draws, slot, n)),
        slot_holder(cs, draws, slot, n) < 0 <==> eligible_rank(cs, n) <= slot,
    decreases n,
{
    if n > 0 {
        lemma_slot_holder_bounds(cs, draws, slot, n - 1);
    }
}

proof fn lemma_slot_holders_differ<C: Candidate>(cs: Seq<C>, draws: Seq<usize>, n: int)
    requires
        0 <= n <= cs.len(),
    ensures
        slot_holder(cs, draws, 0, n) >= 0 ==> slot_holder(cs, draws, 0, n) != slot_holder(cs, draws, 1, n),
    decreases n,
{
    if n > 0 {
        lemma_slot_holders_differ(cs, draws, n - 1);
        lemma_slot_holder_bounds(cs, draws, 0, n - 1);
        lemma_slot_holder_bounds(cs, draws, 1, n - 1);
    }
}

/// The two slot holders of a two-slot reservoir over `candidates` with the
/// given draws.
fn sample_pair<C: Candidate>(candidates: &[C], draws: &[usize]) -> (pair: (Option<usize>, Option<usize>))
    requires
        two_choice_draws(candidates@, draws@),
    ensures
        match pair.0 {
            Some(a) => slot_holder(candidates@, draws@, 0, candidates@.len() as int) == a,
            None => slot_holder(candidates@, draws@, 0, candidates@.len() as int) == -1,
        },
        match pair.1 {
            Some(b) => slot_holder(candidates@, draws@, 1, candidates@.len() as int) == b,
            None => slot_holder(candidates@, draws@, 1, candidates@.len() as int) == -1,
        },
{
    let ghost cs = candidates@;
    let n = candidates.len();
    let mut first: Option<usize> = None;
    let mut second: Option<usize> = None;
    let mut seen: usize = 0;
    let mut index: usize = 0;
    proof {
        lemma_rank_bound(cs, n as int);
    }
    while index < n
        invariant
            n == cs.len(),
            cs == candidates@,
            two_choice_draws(cs, draws@),
            index <= n,
            seen == eligible_rank(cs, index as int),
            match first {
                Some(a) => slot_holder(cs, draws@, 0, index as int) == a,
                None => slot_holder(cs, draws@, 0, index as int) == -1,
            },
            match second {
                Some(b) => slot_holder(cs, draws@, 1, index as int) == b,
                None => slot_holder(cs, draws@, 1, index as int) == -1,
            },
        decreases n - index,
    {
        proof {
            lemma_rank_bound(cs, index as int);
            lemma_rank_step(cs, index as int, n as int);
        }
        if candidates[index].is_eligible() {
            if seen == 0 {
                first = Some(index);
            } else if seen == 1 {
                second = Some(index);
            } else {
                let slot = draws[seen - 2];
                if slot == 0 {
                    first = Some(index);
                } else if slot == 1 {
                    second = Some(index);
                }
            }
            seen = seen + 1;
        }
        index = index + 1;
    }
    (first, second)
}

/// The candidate two-choice selection settles on, given the slot draws taken
/// for each eligible candidate after the second and the coin thrown on equal
/// loads.
pub fn two_choice<C: Candidate>(candidates: &[C], draws: &[usize], coin: bool) -> (i: usize)
    where C::Load: LoadMetric
    requires
        any_eligible(candidates@),
        two_choice_draws(candidates@, draws@),
    ensures
        i == two_choice_answer(candidates@, draws@, coin),
        eligible_at(candidates@, i as int),
{
    let ghost cs = candidates@;
    let pair = sample_pair(candidates, draws);
    proof {
        lemma_slot_holder_bounds(cs, draws@, 0, cs.len() as int);
        lemma_slot_holder_bounds(cs, draws@, 1, cs.len() as int);
        let j = choose|j: int| eligible_at(cs, j);
        lemma_rank_step(cs, j, cs.len() as int);
        lemma_rank_bound(cs, j);
    }
    match pair {
        (Some(a), None) => a,
        (Some(a), Some(b)) => {
            let a_load = candidates[a].load().measure();
            let b_load = candidates[b].load().measure();
            choose_of_two(a, a_load, b, b_load, coin)
        },
        // Unreachable: an eligible candidate holds slot 0.
        (None, _) => 0,
    }
}

/// Chooses between two sampled candidates: the less loaded wins, and a coin
/// decides between equal loads.
pub fn choose_of_two(first: usize, first_load: i128, second: usize, second_load: i128, coin: bool) -> (s: usize)
    ensures
        first_load < second_load ==> s == first,
        second_load < first_load ==> s == second,
        first_load == second_load ==> s == (if coin { first } else { second }),
{
    if first_load < second_load {
        first
    } else if second_load < first_load {
        second
    } else if coin {
        first
    } else {
        second
    }
}

impl<C: Candidate> Policy<C, ()> for PowerOfTwoChoices where C::Load: LoadMetric {
    open spec fn pick_outcome(
        &self,
        after: &Self,
        candidates: &[C],
        context: &(),
        r: Result<Selection, PickError>,
    ) -> bool {
        &&& !any_eligible(candidates@) ==> r == Err::<Selection, PickError>(
            super::spec_no_candidate_error(candidates@.len()),
        )
        &&& any_eligible(candidates@) ==> (r matches Ok(s) && eligible_at(candidates@, s@ as int))
        &&& r matches Ok(s) ==> exists|draws: Seq<usize>, coin: bool|
            two_choice_draws(candidates@, draws) && s@ == #[trigger] two_choice_answer(candidates@, draws, coin)
    }

    /// Samples two eligible candidates and selects the less loaded; with one
    /// eligible candidate, selects it.
    fn pick(&mut self, candidates: &[C], context: &()) -> (r: Result<Selection, PickError>) {
        let ghost cs = candidates@;
        let n = candidates.len();
        let mut draws: Vec<usize> = Vec::new();
        let mut seen: usize = 0;
        let mut index: usize = 0;
        while index < n
            invariant
                n == cs.len(),
                cs == candidates@,
                index <= n,
                seen == eligible_rank(cs, index as int),
                draws@.len() == (if seen >= 2 {
                    seen - 2
                } else {
                    0
                }),
                forall|j: int| 0 <= j < draws@.len() ==> #[trigger] draws@[j] <= j + 2,
            decreases n - index,
        {
            proof {
                lemma_rank_bound(cs, index as int);
            }
            if candidates[index].is_eligible() {
                seen = seen + 1;
                if seen > 2 {
                    let slot = random_index(&mut self.rng, seen);
                    draws.push(slot);
                }
            }
            index = index + 1;
        }
        let pair = sample_pair(candidates, draws.as_slice());
        proof {
            lemma_slot_holder_bounds(cs, draws@, 0, n as int);
            lemma_slot_holder_bounds(cs, draws@, 1, n as int);
            lemma_slot_holders_differ(cs, draws@, n as int);
        }
        match pair {
            (None, _) => {
                proof {
                    if any_eligible(cs) {
                        let j = choose|j: int| eligible_at(cs, j);
                        lemma_rank_step(cs, j, n as int);
                        lemma_rank_bound(cs, j);
                    }
                }
                Err(no_candidate_error(n))
            },
            (Some(a), None) => {
                proof {
                    assert(two_choice_draws(cs, draws@) && a == two_choice_answer(cs, draws@, true));
                }
                Ok(Selection::new(a))
            },
            (Some(a), Some(b)) => {
                let a_load = candidates[a].load().measure();
                let b_load = candidates[b].load().measure();
                let coin = if a_load == b_load {
                    random_flag(&mut self.rng)
                } else {
                    false
                };
                let s = choose_of_two(a, a_load, b, b_load, coin);
                proof {
                    assert(two_choice_draws(cs, draws@) && s == two_choice_answer(cs, draws@, coin));
                }
                Ok(Selection::new(s))
            },
        }
    }
}

/// Two-choice selection over candidates with integer `u32` loads settles on
/// one of the two sampled candidates, and on one whose load value is no
/// greater than the other's: of two sampled candidates with different loads,
/// the less loaded always wins, whatever the coin.
pub proof fn lemma_two_choice_prefers_the_smaller_load<C: Candidate<Load = u32>>(
    cs: Seq<C>,
    draws: Seq<usize>,
    coin: bool,
)
    requires
        any_eligible(cs),
    ensures
        ({
            let a = slot_holder(cs, draws, 0, cs.len() as int);
            let b = slot_holder(cs, draws, 1, cs.len() as int);
            let s = two_choice_answer(cs, draws, coin);
            &&& b < 0 ==> s == a
            &&& b >= 0 ==> {
                &&& s == a || s == b
                &&& cs[s].spec_load() <= cs[a].spec_load()
                &&& cs[s].spec_load() <= cs[b].spec_load()
                &&& cs[a].spec_load() < cs[b].spec_load() ==> s == a
                &&& cs[b].spec_load() < cs[a].spec_load() ==> s == b
            }
        }),
{
}

/// With exactly two eligible candidates both are sampled, so power-of-two
/// choices with integer `u32` loads always selects the less loaded one.
pub proof fn lemma_power_of_two_pair_picks_the_less_loaded<C: Candidate<Load = u32>>(
    policy: PowerOfTwoChoices,
    after: PowerOfTwoChoices,
    candidates: &[C],
    r: Result<Selection, PickError>,
    less: int,
    more: int,
)
    requires
        policy.pick_outcome(&after, candidates, &(), r),
        eligible_at(candidates@, less),
        eligible_at(candidates@, more),
        forall|k: int| #[trigger] eligible_at(candidates@, k) ==> k == less || k == more,
        candidates@[less].spec_load() < candidates@[more].spec_load(),
    ensures
        r matches Ok(s) && s@ == less,
{
    let cs = candidates@;
    let n = cs.len() as int;
    assert(r is Ok);
    let s = r->Ok_0;
    let (draws, coin) = choose|draws: Seq<usize>, coin: bool|
        two_choice_draws(cs, draws) && s@ == #[trigger] two_choice_answer(cs, draws, coin);
    let first = if less < more { less } else { more };
    let second = if less < more { more } else { less };
    lemma_rank_step(cs, first, second);
    lemma_rank_step(cs, second, n);
    lemma_rank_bound(cs, first);
    lemma_slot_holder_bounds(cs, draws, 0, n);
    lemma_slot_holder_bounds(cs, draws, 1, n);
    lemma_slot_holders_differ(cs, draws, n);
    lemma_two_choice_prefers_the_smaller_load(cs, draws, coin);
}

} // verus!
