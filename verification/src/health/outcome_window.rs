use vstd::prelude::*;

use std::collections::VecDeque;

use crate::feedback::Outcome;

verus! {

/// Outcome-window size, warm-up, and penalty weights.
#[derive(Clone, Copy, Debug, PartialEq, Eq, Structural, Hash)]
pub struct OutcomeWindowConfig {
    capacity: usize,
    minimum_samples: usize,
    failure_weight: u32,
    overload_weight: u32,
}

/// Invalid outcome-window configuration.
#[derive(Clone, Copy, Debug, PartialEq, Eq, Structural, Hash)]
pub enum OutcomeWindowConfigError {
    /// The warm-up is longer than the window.
    MinimumExceedsCapacity,
}

impl OutcomeWindowConfigError {
    /// Describes the error.
    pub fn message(&self) -> (m: String)
        ensures
            m@ == "minimum samples cannot exceed outcome window capacity"@,
    {
        String::from_str("minimum samples cannot exceed outcome window capacity")
    }
}

impl OutcomeWindowConfig {
    #[verifier::type_invariant]
    spec fn config_valid(self) -> bool {
        &&& self.capacity > 0
        &&& self.minimum_samples <= self.capacity
        &&& self.failure_weight > 0
        &&& self.overload_weight > 0
    }

    /// How many recent outcomes the window holds.
    pub closed spec fn spec_capacity(self) -> usize {
        self.capacity
    }

    /// Samples needed before the penalty counts.
    pub closed spec fn spec_minimum_samples(self) -> usize {
        self.minimum_samples
    }

    /// Penalty units per failure.
    pub closed spec fn spec_failure_weight(self) -> u32 {
        self.failure_weight
    }

    /// Penalty units per overload.
    pub closed spec fn spec_overload_weight(self) -> u32 {
        self.overload_weight
    }

    /// Creates a window of `capacity` outcomes with a one-sample warm-up,
    /// failures weighing one unit and overloads two.
    pub fn new(capacity: usize) -> (c: Self)
        requires
            capacity > 0,
        ensures
            c.spec_capacity() == capacity,
            c.spec_minimum_samples() == 1,
            c.spec_failure_weight() == 1,
            c.spec_overload_weight() == 2,
    {
        OutcomeWindowConfig { capacity, minimum_samples: 1, failure_weight: 1, overload_weight: 2 }
    }

    /// Sets the warm-up; it cannot exceed the capacity.
    pub fn with_minimum_samples(self, minimum_samples: usize) -> (r: Result<Self, OutcomeWindowConfigError>)
        ensures
            minimum_samples > self.spec_capacity() ==> r == Err::<Self, OutcomeWindowConfigError>(
                OutcomeWindowConfigError::MinimumExceedsCapacity,
            ),
            minimum_samples <= self.spec_capacity() ==> (r matches Ok(c) && c.spec_minimum_samples()
                == minimum_samples && c.spec_capacity() == self.spec_capacity() && c.spec_failure_weight()
                == self.spec_failure_weight() && c.spec_overload_weight() == self.spec_overload_weight()),
    {
        proof {
            use_type_invariant(self);
        }
        if minimum_samples > self.capacity {
            return Err(OutcomeWindowConfigError::MinimumExceedsCapacity);
        }
        Ok(OutcomeWindowConfig { minimum_samples, ..self })
    }

    /// Sets the penalty units of failures and overloads.
    pub fn with_weights(self, failure_weight: u32, overload_weight: u32) -> (c: Self)
        requires
            failure_weight > 0,
            overload_weight > 0,
        ensures
            c.spec_failure_weight() == failure_weight,
            c.spec_overload_weight() == overload_weight,
            c.spec_capacity() == self.spec_capacity(),
            c.spec_minimum_samples() == self.spec_minimum_samples(),
    {
        proof {
            use_type_invariant(self);
        }
        OutcomeWindowConfig { failure_weight, overload_weight, ..self }
    }

    /// Returns the capacity, at least one.
    pub fn capacity(self) -> (n: usize)
        ensures
            n == self.spec_capacity(),
            n > 0,
    {
        proof {
            use_type_invariant(self);
        }
        self.capacity
    }

    /// Returns the warm-up, at most the capacity.
    pub fn minimum_samples(self) -> (n: usize)
        ensures
            n == self.spec_minimum_samples(),
            n <= self.spec_capacity(),
    {
        proof {
            use_type_invariant(self);
        }
        self.minimum_samples
    }

    /// Returns the failure weight, at least one.
    pub fn failure_weight(self) -> (w: u32)
        ensures
            w == self.spec_failure_weight(),
            w > 0,
    {
        proof {
            use_type_invariant(self);
        }
        self.failure_weight
    }

    /// Returns the overload weight, at least one.
    pub fn overload_weight(self) -> (w: u32)
        ensures
            w == self.spec_overload_weight(),
            w > 0,
    {
        proof {
            use_type_invariant(self);
        }
        self.overload_weight
    }
}

/// How many times `o` occurs in `s`.
pub open spec fn count_of(s: Seq<Outcome>, o: Outcome) -> nat
    decreases s.len(),
{
    if s.len() == 0 {
        0
    } else {
        count_of(s.drop_last(), o) + if s.last() == o {
            1nat
        } else {
            0nat
        }
    }
}

/// The penalty units of the outcomes in `s`.
pub open spec fn penalty_of(s: Seq<Outcome>, config: OutcomeWindowConfig) -> int {
    count_of(s, Outcome::Failure) * config.spec_failure_weight() + count_of(s, Outcome::Overloaded)
        * config.spec_overload_weight()
}

/// The window after recording `outcome`: cancellations are ignored, and a
/// full window drops its oldest outcome.
pub open spec fn spec_recorded(s: Seq<Outcome>, capacity: usize, outcome: Outcome) -> Seq<Outcome> {
    if outcome == Outcome::Cancelled {
        s
    } else if s.len() >= capacity {
        s.drop_first().push(outcome)
    } else {
        s.push(outcome)
    }
}

/// The outcomes of `records` that observe the backend: all but
/// cancellations, in order.
pub open spec fn observed(records: Seq<Outcome>) -> Seq<Outcome> {
    records.filter(|o: Outcome| o != Outcome::Cancelled)
}

/// The window an empty window of `capacity` becomes after recording each of
/// `records` in turn.
pub open spec fn window_after(records: Seq<Outcome>, capacity: usize) -> Seq<Outcome>
    decreases records.len(),
{
    if records.len() == 0 {
        Seq::empty()
    } else {
        spec_recorded(window_after(records.drop_last(), capacity), capacity, records.last())
    }
}

/// Whatever is recorded, a window holds exactly the last `capacity`
/// observed outcomes, or all of them while there are fewer: cancellations
/// never enter it and the oldest observation leaves first.
pub proof fn lemma_window_keeps_latest_observations(records: Seq<Outcome>, capacity: usize)
    requires
        capacity > 0,
    ensures
        ({
            let o = observed(records);
            let k = if o.len() < capacity {
                o.len() as int
            } else {
                capacity as int
            };
            window_after(records, capacity) == o.subrange(o.len() - k, o.len() as int)
        }),
    decreases records.len(),
{
    reveal(Seq::filter);
    if records.len() > 0 {
        let prefix = records.drop_last();
        let last = records.last();
        lemma_window_keeps_latest_observations(prefix, capacity);
        let before = observed(prefix);
        let w = window_after(prefix, capacity);
        let o = observed(records);
        if last == Outcome::Cancelled {
            assert(o == before);
        } else {
            assert(o == before.push(last));
            if before.len() < capacity {
                assert(w =~= before);
                assert(window_after(records, capacity) =~= o.subrange(0, o.len() as int));
            } else {
                assert(w.len() == capacity);
                assert(window_after(records, capacity) =~= o.subrange(o.len() - capacity, o.len() as int));
            }
        }
    }
}

/// Counts over the current window.
#[derive(Clone, Copy, Debug, PartialEq, Eq, Structural, Hash)]
pub struct WindowTotals {
    /// Successes in the window.
    pub successes: usize,
    /// Failures in the window.
    pub failures: usize,
    /// Overloads in the window.
    pub overloaded: usize,
    /// Outcomes in the window.
    pub samples: usize,
    /// Penalty units in the window.
    pub penalty_units: u128,
    /// Whether the window holds at least the warm-up number of samples.
    pub warmed_up: bool,
}

/// The most recent observed outcomes, with running totals.
pub struct OutcomeWindowState {
    config: OutcomeWindowConfig,
    outcomes: VecDeque<Outcome>,
    successes: usize,
    failures: usize,
    overloaded: usize,
    penalty_units: u128,
}

proof fn lemma_count_push(s: Seq<Outcome>, x: Outcome, o: Outcome)
    ensures
        count_of(s.push(x), o) == count_of(s, o) + if x == o { 1nat } else { 0nat },
{
    assert(s.push(x).drop_last() =~= s);
}

proof fn lemma_count_drop_first(s: Seq<Outcome>, o: Outcome)
    requires
        s.len() > 0,
    ensures
        count_of(s, o) == count_of(s.drop_first(), o) + if s[0] == o { 1nat } else { 0nat },
    decreases s.len(),
{
    if s.len() > 1 {
        lemma_count_drop_first(s.drop_last(), o);
        assert(s.drop_last().drop_first() =~= s.drop_first().drop_last());
    } else {
        assert(s.drop_first() =~= Seq::<Outcome>::empty());
        assert(s.drop_last() =~= Seq::<Outcome>::empty());
    }
}

proof fn lemma_count_bound(s: Seq<Outcome>)
    ensures
        count_of(s, Outcome::Success) + count_of(s, Outcome::Failure) + count_of(s, Outcome::Overloaded)
            + count_of(s, Outcome::Cancelled) == s.len(),
    decreases s.len(),
{
    if s.len() > 0 {
        lemma_count_bound(s.drop_last());
    }
}

/// The penalty units of one outcome.
pub open spec fn weight_of(o: Outcome, config: OutcomeWindowConfig) -> int {
    match o {
        Outcome::Failure => config.spec_failure_weight() as int,
        Outcome::Overloaded => config.spec_overload_weight() as int,
        _ => 0,
    }
}

proof fn lemma_window_drop(s: Seq<Outcome>, config: OutcomeWindowConfig)
    requires
        s.len() > 0,
    ensures
        count_of(s, Outcome::Success) == count_of(s.drop_first(), Outcome::Success) + if s[0] == Outcome::Success { 1nat } else { 0nat },
        count_of(s, Outcome::Failure) == count_of(s.drop_first(), Outcome::Failure) + if s[0] == Outcome::Failure { 1nat } else { 0nat },
        count_of(s, Outcome::Overloaded) == count_of(s.drop_first(), Outcome::Overloaded) + if s[0] == Outcome::Overloaded { 1nat } else { 0nat },
        count_of(s, Outcome::Cancelled) == count_of(s.drop_first(), Outcome::Cancelled) + if s[0] == Outcome::Cancelled { 1nat } else { 0nat },
        penalty_of(s, config) == penalty_of(s.drop_first(), config) + weight_of(s[0], config),
{
    lemma_count_drop_first(s, Outcome::Success);
    lemma_count_drop_first(s, Outcome::Failure);
    lemma_count_drop_first(s, Outcome::Overloaded);
    lemma_count_drop_first(s, Outcome::Cancelled);
    let f = count_of(s.drop_first(), Outcome::Failure) as int;
    let o = count_of(s.drop_first(), Outcome::Overloaded) as int;
    let fw = config.spec_failure_weight() as int;
    let ow = config.spec_overload_weight() as int;
    assert((f + 1) * fw == f * fw + fw) by (nonlinear_arith);
    assert((o + 1) * ow == o * ow + ow) by (nonlinear_arith);
}

proof fn lemma_window_push(s: Seq<Outcome>, x: Outcome, config: OutcomeWindowConfig)
    ensures
        count_of(s.push(x), Outcome::Success) == count_of(s, Outcome::Success) + if x == Outcome::Success { 1nat } else { 0nat },
        count_of(s.push(x), Outcome::Failure) == count_of(s, Outcome::Failure) + if x == Outcome::Failure { 1nat } else { 0nat },
        count_of(s.push(x), Outcome::Overloaded) == count_of(s, Outcome::Overloaded) + if x == Outcome::Overloaded { 1nat } else { 0nat },
        count_of(s.push(x), Outcome::Cancelled) == count_of(s, Outcome::Cancelled) + if x == Outcome::Cancelled { 1nat } else { 0nat },
        penalty_of(s.push(x), config) == penalty_of(s, config) + weight_of(x, config),
        penalty_of(s.push(x), config) <= s.push(x).len() * 0xffff_ffff,
        count_of(s.push(x), Outcome::Success) + count_of(s.push(x), Outcome::Failure) + count_of(s.push(x), Outcome::Overloaded)
            <= s.push(x).len(),
{
    lemma_count_push(s, x, Outcome::Success);
    lemma_count_push(s, x, Outcome::Failure);
    lemma_count_push(s, x, Outcome::Overloaded);
    lemma_count_push(s, x, Outcome::Cancelled);
    lemma_count_bound(s.push(x));
    let f = count_of(s, Outcome::Failure) as int;
    let o = count_of(s, Outcome::Overloaded) as int;
    let fw = config.spec_failure_weight() as int;
    let ow = config.spec_overload_weight() as int;
    assert((f + 1) * fw == f * fw + fw) by (nonlinear_arith);
    assert((o + 1) * ow == o * ow + ow) by (nonlinear_arith);
    let f2 = count_of(s.push(x), Outcome::Failure) as int;
    let o2 = count_of(s.push(x), Outcome::Overloaded) as int;
    assert(f2 * fw + o2 * ow <= (f2 + o2) * 0xffff_ffff) by (nonlinear_arith)
        requires
            0 <= fw <= 0xffff_ffff,
            0 <= ow <= 0xffff_ffff,
            f2 >= 0,
            o2 >= 0,
    ;
}

impl OutcomeWindowState {
    #[verifier::type_invariant]
    spec fn totals_match(self) -> bool {
        &&& self.outcomes@.len() <= self.config.spec_capacity()
        &&& count_of(self.outcomes@, Outcome::Cancelled) == 0
        &&& self.successes == count_of(self.outcomes@, Outcome::Success)
        &&& self.failures == count_of(self.outcomes@, Outcome::Failure)
        &&& self.overloaded == count_of(self.outcomes@, Outcome::Overloaded)
        &&& self.penalty_units == penalty_of(self.outcomes@, self.config)
    }

    /// The configuration.
    pub closed spec fn spec_config(&self) -> OutcomeWindowConfig {
        self.config
    }

    /// The outcomes in the window, oldest first.
    pub closed spec fn spec_outcomes(&self) -> Seq<Outcome> {
        self.outcomes@
    }

    /// Creates an empty window.
    pub fn new(config: OutcomeWindowConfig) -> (w: Self)
        ensures
            w.spec_config() == config,
            w.spec_outcomes() == Seq::<Outcome>::empty(),
    {
        let w = OutcomeWindowState {
            config,
            outcomes: VecDeque::new(),
            successes: 0,
            failures: 0,
            overloaded: 0,
            penalty_units: 0,
        };
        proof {
            assert(count_of(w.outcomes@, Outcome::Success) == 0);
        }
        w
    }

    /// Returns the configuration.
    pub fn config(&self) -> (c: OutcomeWindowConfig)
        ensures
            c == self.spec_config(),
    {
        self.config
    }

    /// Records a finished request; cancellations are not observations.
    pub fn record(&mut self, outcome: Outcome)
        ensures
            final(self).spec_config() == old(self).spec_config(),
            final(self).spec_outcomes() == spec_recorded(
                old(self).spec_outcomes(),
                old(self).spec_config().spec_capacity(),
                outcome,
            ),
    {
        proof {
            use_type_invariant(&*self);
            use_type_invariant(&self.config);
        }
        if outcome == Outcome::Cancelled {
            return;
        }
        let config = self.config;
        let mut taken = OutcomeWindowState::new(config);
        std::mem::swap(&mut taken, self);
        proof {
            use_type_invariant(&taken);
        }
        let OutcomeWindowState {
            config: _,
            mut outcomes,
            mut successes,
            mut failures,
            mut overloaded,
            penalty_units: mut penalty,
        } = taken;
        let ghost before = outcomes@;
        let fw = config.failure_weight as u128;
        let ow = config.overload_weight as u128;
        let ghost mid = before;
        if outcomes.len() >= config.capacity {
            let removed = outcomes.pop_front().unwrap();
            proof {
                mid = before.drop_first();
                assert(outcomes@ =~= mid);
                lemma_window_drop(before, config);
            }
            match removed {
                Outcome::Success => {
                    successes = successes - 1;
                },
                Outcome::Failure => {
                    failures = failures - 1;
                    penalty = penalty - fw;
                },
                Outcome::Overloaded => {
                    overloaded = overloaded - 1;
                    penalty = penalty - ow;
                },
                Outcome::Cancelled => {},
            }
        }
        proof {
            lemma_window_push(mid, outcome, config);
        }
        match outcome {
            Outcome::Success => {
                successes = successes + 1;
            },
            Outcome::Failure => {
                failures = failures + 1;
                penalty = penalty + fw;
            },
            Outcome::Overloaded => {
                overloaded = overloaded + 1;
                penalty = penalty + ow;
            },
            Outcome::Cancelled => {},
        }
        outcomes.push_back(outcome);
        *self = OutcomeWindowState { config, outcomes, successes, failures, overloaded, penalty_units: penalty };
    }

    /// Reports the window's counts and penalty units.
    pub fn totals(&self) -> (t: WindowTotals)
        ensures
            t.successes == count_of(self.spec_outcomes(), Outcome::Success),
            t.failures == count_of(self.spec_outcomes(), Outcome::Failure),
            t.overloaded == count_of(self.spec_outcomes(), Outcome::Overloaded),
            t.samples == self.spec_outcomes().len(),
            t.penalty_units == penalty_of(self.spec_outcomes(), self.spec_config()),
            t.warmed_up == (self.spec_outcomes().len() >= self.spec_config().spec_minimum_samples()
                && self.spec_outcomes().len() > 0),
    {
        proof {
            use_type_invariant(self);
        }
        let samples = self.outcomes.len();
        WindowTotals {
            successes: self.successes,
            failures: self.failures,
            overloaded: self.overloaded,
            samples,
            penalty_units: self.penalty_units,
            warmed_up: samples >= self.config.minimum_samples && samples > 0,
        }
    }

    /// Empties the window.
    pub fn clear(&mut self)
        ensures
            final(self).spec_config() == old(self).spec_config(),
            final(self).spec_outcomes() == Seq::<Outcome>::empty(),
    {
        *self = OutcomeWindowState::new(self.config);
    }
}

} // verus!
