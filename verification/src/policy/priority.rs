//! Priority failover with overprovisioning, panic mode, and weighted random
//! selection inside the chosen priority.

use vstd::prelude::*;

use rand::rngs::StdRng;

use crate::backend::{Candidate, Status};
use crate::error::PickError;
use crate::selection::Selection;
use crate::weight::Weight;

use super::Policy;
use super::random::{entropy_rng, random_below, seeded_rng};

verus! {

/// Traffic is split between priorities in millionths.
pub const TRAFFIC_UNITS: u64 = 1_000_000;

/// Default overprovisioning factor: 140% of healthy capacity counts as full.
pub const DEFAULT_OVERPROVISIONING_FACTOR_PERCENT: u32 = 140;

/// Default panic threshold: a priority below half its raw availability panics.
pub const DEFAULT_PANIC_THRESHOLD_PERCENT: u32 = 50;

/// What to do when a selected priority is in panic.
#[derive(Clone, Copy, Debug, PartialEq, Eq, Structural, Hash)]
pub enum PanicMode {
    /// Route to every panic-eligible member of the priority, healthy or not.
    UseAll,
    /// Reject the request with [`PickError::PanicRejected`].
    FailClosed,
}

impl Default for PanicMode {
    fn default() -> (m: Self)
        ensures
            m == PanicMode::UseAll,
    {
        PanicMode::UseAll
    }
}

/// Priority failover policy settings.
#[derive(Clone, Copy, Debug, PartialEq, Eq, Structural, Hash)]
pub struct PriorityConfig {
    overprovisioning_factor_percent: u32,
    panic_threshold_percent: u32,
    panic_mode: PanicMode,
}

/// Invalid priority configuration.
#[derive(Clone, Copy, Debug, PartialEq, Eq, Structural, Hash)]
pub enum PriorityConfigError {
    /// The overprovisioning factor is below 100 percent.
    Underprovisioned,
    /// The panic threshold exceeds 100 percent.
    InvalidPanicThreshold,
}

impl PriorityConfigError {
    /// Describes the error.
    pub fn message(&self) -> (m: String)
        ensures
            m@ == (match *self {
                PriorityConfigError::Underprovisioned => "priority overprovisioning factor must be at least 100 percent"@,
                PriorityConfigError::InvalidPanicThreshold => "priority panic threshold must not exceed 100 percent"@,
            }),
    {
        match self {
            PriorityConfigError::Underprovisioned => String::from_str(
                "priority overprovisioning factor must be at least 100 percent",
            ),
            PriorityConfigError::InvalidPanicThreshold => String::from_str(
                "priority panic threshold must not exceed 100 percent",
            ),
        }
    }
}

impl PriorityConfig {
    #[verifier::type_invariant]
    spec fn config_valid(self) -> bool {
        &&& self.overprovisioning_factor_percent >= 100
        &&& self.panic_threshold_percent <= 100
    }

    /// The overprovisioning factor in percent.
    pub closed spec fn spec_overprovisioning(self) -> u32 {
        self.overprovisioning_factor_percent
    }

    /// The panic threshold in percent of raw availability.
    pub closed spec fn spec_panic_threshold(self) -> u32 {
        self.panic_threshold_percent
    }

    /// The panic behavior.
    pub closed spec fn spec_panic_mode(self) -> PanicMode {
        self.panic_mode
    }

    /// Creates a configuration; the overprovisioning factor must be at least
    /// 100 and the panic threshold at most 100.
    pub fn new(
        overprovisioning_factor_percent: u32,
        panic_threshold_percent: u32,
        panic_mode: PanicMode,
    ) -> (r: Result<Self, PriorityConfigError>)
        ensures
            overprovisioning_factor_percent < 100 ==> r == Err::<Self, PriorityConfigError>(
                PriorityConfigError::Underprovisioned,
            ),
            overprovisioning_factor_percent >= 100 && panic_threshold_percent > 100 ==> r == Err::<
                Self,
                PriorityConfigError,
            >(PriorityConfigError::InvalidPanicThreshold),
            overprovisioning_factor_percent >= 100 && panic_threshold_percent <= 100 ==> (r matches Ok(
                c,
            ) && c.spec_overprovisioning() == overprovisioning_factor_percent
                && c.spec_panic_threshold() == panic_threshold_percent && c.spec_panic_mode()
                == panic_mode),
    {
        if overprovisioning_factor_percent < 100 {
            return Err(PriorityConfigError::Underprovisioned);
        }
        if panic_threshold_percent > 100 {
            return Err(PriorityConfigError::InvalidPanicThreshold);
        }
        Ok(PriorityConfig { overprovisioning_factor_percent, panic_threshold_percent, panic_mode })
    }

    /// Returns the overprovisioning factor, at least 100.
    pub fn overprovisioning_factor_percent(self) -> (f: u32)
        ensures
            f == self.spec_overprovisioning(),
            f >= 100,
    {
        proof {
            use_type_invariant(self);
        }
        self.overprovisioning_factor_percent
    }

    /// Returns the panic threshold, at most 100.
    pub fn panic_threshold_percent(self) -> (t: u32)
        ensures
            t == self.spec_panic_threshold(),
            t <= 100,
    {
        proof {
            use_type_invariant(self);
        }
        self.panic_threshold_percent
    }

    /// Returns the panic behavior.
    pub fn panic_mode(self) -> (m: PanicMode)
        ensures
            m == self.spec_panic_mode(),
    {
        self.panic_mode
    }
}

impl Default for PriorityConfig {
    fn default() -> (c: Self)
        ensures
            c.spec_overprovisioning() == DEFAULT_OVERPROVISIONING_FACTOR_PERCENT,
            c.spec_panic_threshold() == DEFAULT_PANIC_THRESHOLD_PERCENT,
            c.spec_panic_mode() == PanicMode::UseAll,
    {
        PriorityConfig {
            overprovisioning_factor_percent: DEFAULT_OVERPROVISIONING_FACTOR_PERCENT,
            panic_threshold_percent: DEFAULT_PANIC_THRESHOLD_PERCENT,
            panic_mode: PanicMode::UseAll,
        }
    }
}

/// A candidate that belongs to a priority level.
///
/// Lower numbers are preferred. Members that are not priority members (for
/// example draining ones) take no part in capacity or selection; panic mode
/// routes only to panic-eligible members.
pub trait PriorityCandidate: Candidate {
    /// The priority level.
    spec fn spec_priority(&self) -> u32;

    /// Whether the candidate counts toward its priority's capacity.
    spec fn spec_priority_member(&self) -> bool;

    /// Whether panic mode may route to the candidate.
    spec fn spec_panic_eligible(&self) -> bool;

    /// Returns the priority level; lower is preferred.
    fn priority(&self) -> (p: u32)
        ensures
            p == self.spec_priority(),
    ;

    /// Returns whether the candidate counts toward its priority's capacity.
    fn is_priority_member(&self) -> (b: bool)
        ensures
            b == self.spec_priority_member(),
    ;

    /// Returns whether panic mode may route to the candidate.
    fn is_panic_eligible(&self) -> (b: bool)
        ensures
            b == self.spec_panic_eligible(),
    ;
}

/// Attaches a priority and a panic opt-out to a candidate.
#[derive(Clone, Debug, PartialEq, Eq)]
pub struct Prioritized<C> {
    inner: C,
    priority: u32,
    allow_in_panic: bool,
}

impl<C> Prioritized<C> {
    /// The wrapped candidate.
    pub closed spec fn spec_inner(&self) -> C {
        self.inner
    }

    /// Whether panic mode may use the candidate.
    pub closed spec fn spec_allows_panic(&self) -> bool {
        self.allow_in_panic
    }

    /// Wraps a candidate at `priority`, allowed in panic mode.
    pub fn new(inner: C, priority: u32) -> (p: Self)
        ensures
            p.spec_inner() == inner,
            p.spec_priority_value() == priority,
            p.spec_allows_panic(),
    {
        Prioritized { inner, priority, allow_in_panic: true }
    }

    /// The priority level.
    pub closed spec fn spec_priority_value(&self) -> u32 {
        self.priority
    }

    /// Sets whether panic mode may route to the candidate.
    pub fn with_panic_eligibility(self, allow: bool) -> (p: Self)
        ensures
            p.spec_inner() == self.spec_inner(),
            p.spec_priority_value() == self.spec_priority_value(),
            p.spec_allows_panic() == allow,
    {
        Prioritized { inner: self.inner, priority: self.priority, allow_in_panic: allow }
    }

    /// Returns the wrapped candidate.
    pub fn inner(&self) -> (c: &C)
        ensures
            *c == self.spec_inner(),
    {
        &self.inner
    }

    /// Returns the priority level.
    pub fn priority(&self) -> (p: u32)
        ensures
            p == self.spec_priority_value(),
    {
        self.priority
    }

    /// Returns whether panic mode may route to the candidate.
    pub fn allows_panic(&self) -> (b: bool)
        ensures
            b == self.spec_allows_panic(),
    {
        self.allow_in_panic
    }

    /// Returns the wrapped candidate mutably.
    pub fn inner_mut(&mut self) -> (c: &mut C)
        ensures
            *c == old(self).spec_inner(),
            final(self).spec_inner() == *final(c),
            final(self).spec_priority_value() == old(self).spec_priority_value(),
            final(self).spec_allows_panic() == old(self).spec_allows_panic(),
    {
        &mut self.inner
    }

    /// Unwraps the candidate.
    pub fn into_inner(self) -> (c: C)
        ensures
            c == self.spec_inner(),
    {
        self.inner
    }

    /// Changes the priority level.
    pub fn set_priority(&mut self, priority: u32)
        ensures
            final(self).spec_priority_value() == priority,
            final(self).spec_inner() == old(self).spec_inner(),
            final(self).spec_allows_panic() == old(self).spec_allows_panic(),
    {
        self.priority = priority;
    }
}

impl<C: Candidate> Candidate for Prioritized<C> {
    type Id = C::Id;

    type Load = C::Load;

    open spec fn spec_id(&self) -> C::Id {
        self.spec_inner().spec_id()
    }

    open spec fn spec_load(&self) -> C::Load {
        self.spec_inner().spec_load()
    }

    open spec fn spec_weight(&self) -> Weight {
        self.spec_inner().spec_weight()
    }

    open spec fn spec_status(&self) -> Status {
        self.spec_inner().spec_status()
    }

    open spec fn spec_eligible(&self) -> bool {
        self.spec_inner().spec_eligible()
    }

    fn id(&self) -> (r: &C::Id) {
        self.inner.id()
    }

    fn weight(&self) -> (w: Weight) {
        self.inner.weight()
    }

    fn load(&self) -> (r: &C::Load) {
        self.inner.load()
    }

    fn status(&self) -> (s: Status) {
        self.inner.status()
    }

    fn is_eligible(&self) -> (b: bool) {
        self.inner.is_eligible()
    }
}

impl<C: Candidate> PriorityCandidate for Prioritized<C> {
    open spec fn spec_priority(&self) -> u32 {
        self.spec_priority_value()
    }

    open spec fn spec_priority_member(&self) -> bool {
        self.spec_status() != Status::Draining
    }

    open spec fn spec_panic_eligible(&self) -> bool {
        self.spec_allows_panic() && self.spec_priority_member()
    }

    fn priority(&self) -> (p: u32) {
        self.priority
    }

    fn is_priority_member(&self) -> (b: bool) {
        self.status() != Status::Draining
    }

    fn is_panic_eligible(&self) -> (b: bool) {
        self.allow_in_panic && self.is_priority_member()
    }
}

/// Whether a decision used healthy members or panic routing.
#[derive(Clone, Copy, Debug, PartialEq, Eq, Structural, Hash)]
pub enum PriorityMode {
    /// Only eligible members of the priority were candidates.
    Healthy,
    /// The priority was in panic; panic-eligible members were candidates.
    Panic,
}

/// The selected member and the priority scope it came from.
#[derive(Clone, Copy, Debug, PartialEq, Eq, Structural, Hash)]
pub struct PriorityDecision {
    selection: Selection,
    priority: u32,
    mode: PriorityMode,
}

impl PriorityDecision {
    /// The selected member.
    pub closed spec fn spec_selection(self) -> Selection {
        self.selection
    }

    /// The selected priority.
    pub closed spec fn spec_priority(self) -> u32 {
        self.priority
    }

    /// The routing mode.
    pub closed spec fn spec_mode(self) -> PriorityMode {
        self.mode
    }

    /// Returns the selected member.
    pub fn selection(self) -> (s: Selection)
        ensures
            s == self.spec_selection(),
    {
        self.selection
    }

    /// Returns the selected priority.
    pub fn priority(self) -> (p: u32)
        ensures
            p == self.spec_priority(),
    {
        self.priority
    }

    /// Returns the routing mode.
    pub fn mode(self) -> (m: PriorityMode)
        ensures
            m == self.spec_mode(),
    {
        self.mode
    }
}

/// Whether the candidate at `i` is a priority member.
pub open spec fn member_at<C: PriorityCandidate>(cs: Seq<C>, i: int) -> bool {
    0 <= i < cs.len() && cs[i].spec_priority_member()
}

/// Whether the candidate at `i` serves priority `p` in `mode`: a member of
/// that priority, eligible for healthy routing or panic-eligible for panic
/// routing.
pub open spec fn in_scope<C: PriorityCandidate>(cs: Seq<C>, i: int, p: u32, mode: PriorityMode) -> bool {
    &&& member_at(cs, i)
    &&& cs[i].spec_priority() == p
    &&& match mode {
        PriorityMode::Healthy => cs[i].spec_eligible(),
        PriorityMode::Panic => cs[i].spec_panic_eligible(),
    }
}

/// The weight of the candidate at `i`.
pub open spec fn weight_at<C: Candidate>(cs: Seq<C>, i: int) -> int {
    cs[i].spec_weight()@ as int
}

/// The summed weight of the members of priority `p` among the first `n`.
pub open spec fn priority_weight<C: PriorityCandidate>(cs: Seq<C>, p: u32, n: int) -> int
    decreases n,
{
    if n <= 0 {
        0
    } else {
        priority_weight(cs, p, n - 1) + if member_at(cs, n - 1) && cs[n - 1].spec_priority() == p {
            weight_at(cs, n - 1)
        } else {
            0
        }
    }
}

/// The summed weight of the candidates serving priority `p` in `mode`
/// among the first `n`.
pub open spec fn scope_weight<C: PriorityCandidate>(cs: Seq<C>, p: u32, mode: PriorityMode, n: int) -> int
    decreases n,
{
    if n <= 0 {
        0
    } else {
        scope_weight(cs, p, mode, n - 1) + if in_scope(cs, n - 1, p, mode) {
            weight_at(cs, n - 1)
        } else {
            0
        }
    }
}

/// Whether some member has priority `p`.
pub open spec fn has_priority<C: PriorityCandidate>(cs: Seq<C>, p: u32) -> bool {
    exists|i: int| member_at(cs, i) && #[trigger] cs[i].spec_priority() == p
}

/// Whether `gs` lists every member priority once, in ascending order.
pub open spec fn is_group_list<C: PriorityCandidate>(cs: Seq<C>, gs: Seq<u32>) -> bool {
    &&& forall|a: int, b: int| 0 <= a < b < gs.len() ==> #[trigger] gs[a] < #[trigger] gs[b]
    &&& forall|k: int| 0 <= k < gs.len() ==> has_priority(cs, #[trigger] gs[k])
    &&& forall|i: int| member_at(cs, i) ==> gs.contains(#[trigger] cs[i].spec_priority())
}

/// A share of traffic units: `available / total` scaled by `factor`
/// percent, capped at [`TRAFFIC_UNITS`].
pub open spec fn spec_ratio_units(available: int, total: int, factor: int) -> int {
    let q = available * factor * 1_000_000 / (total * 100);
    if q < 1_000_000 {
        q
    } else {
        1_000_000
    }
}

/// Computes a capped share of traffic units.
pub fn ratio_units(available: u64, total: u64, factor_percent: u32) -> (r: u64)
    requires
        total > 0,
    ensures
        r == spec_ratio_units(available as int, total as int, factor_percent as int),
{
    assert(available as int * factor_percent as int <= 0xffff_ffff_ffff_ffff_ffff_ffff) by (nonlinear_arith)
        requires
            available <= u64::MAX,
            factor_percent <= u32::MAX,
    ;
    let partial = available as u128 * factor_percent as u128;
    assert(partial as int * 1_000_000 <= u128::MAX) by (nonlinear_arith)
        requires
            partial <= 0xffff_ffff_ffff_ffff_ffff_ffff,
    ;
    let numerator = partial * 1_000_000u128;
    let denominator = total as u128 * 100;
    let q = numerator / denominator;
    if q < 1_000_000 {
        q as u64
    } else {
        1_000_000
    }
}

/// Whether `p` is above the lower bound `after`.
pub open spec fn above(after: Option<u32>, p: u32) -> bool {
    match after {
        None => true,
        Some(a) => p > a,
    }
}

/// Finds the smallest member priority above `after`.
fn next_priority<C: PriorityCandidate>(candidates: &[C], after: Option<u32>) -> (r: Option<u32>)
    ensures
        r is None ==> forall|i: int| member_at(candidates@, i) ==> !above(after, #[trigger] candidates@[i].spec_priority()),
        r matches Some(q) ==> has_priority(candidates@, q) && above(after, q) && forall|i: int|
            member_at(candidates@, i) && above(after, #[trigger] candidates@[i].spec_priority()) ==> q
                <= candidates@[i].spec_priority(),
{
    let n = candidates.len();
    let mut best: Option<u32> = None;
    let mut index: usize = 0;
    while index < n
        invariant
            n == candidates@.len(),
            index <= n,
            best is None ==> forall|i: int|
                0 <= i < index && member_at(candidates@, i) ==> !above(after, #[trigger] candidates@[i].spec_priority()),
            best matches Some(q) ==> has_priority(candidates@, q) && above(after, q) && forall|i: int|
                0 <= i < index && member_at(candidates@, i) && above(after, #[trigger] candidates@[i].spec_priority())
                    ==> q <= candidates@[i].spec_priority(),
        decreases n - index,
    {
        let candidate = &candidates[index];
        if candidate.is_priority_member() {
            let p = candidate.priority();
            let is_above = match after {
                None => true,
                Some(a) => p > a,
            };
            if is_above {
                let better = match best {
                    None => true,
                    Some(q) => p < q,
                };
                if better {
                    best = Some(p);
                }
            }
        }
        index = index + 1;
    }
    best
}

/// One priority's capacity and its share of traffic.
#[derive(Clone, Copy, Debug)]
struct PriorityGroup {
    priority: u32,
    total_weight: u64,
    eligible_weight: u64,
    panic_weight: u64,
    raw_availability: u64,
    effective_availability: u64,
}

/// The raw availability of priority `p`: its eligible share of weight.
pub open spec fn raw_availability<C: PriorityCandidate>(cs: Seq<C>, p: u32) -> int {
    spec_ratio_units(
        scope_weight(cs, p, PriorityMode::Healthy, cs.len() as int),
        priority_weight(cs, p, cs.len() as int),
        100,
    )
}

/// The effective availability of priority `p`: its eligible share scaled by
/// the overprovisioning factor.
pub open spec fn effective_availability<C: PriorityCandidate>(cs: Seq<C>, p: u32, factor: u32) -> int {
    spec_ratio_units(
        scope_weight(cs, p, PriorityMode::Healthy, cs.len() as int),
        priority_weight(cs, p, cs.len() as int),
        factor as int,
    )
}

spec fn group_matches<C: PriorityCandidate>(cs: Seq<C>, g: PriorityGroup, factor: u32) -> bool {
    &&& has_priority(cs, g.priority)
    &&& g.total_weight == priority_weight(cs, g.priority, cs.len() as int)
    &&& g.eligible_weight == scope_weight(cs, g.priority, PriorityMode::Healthy, cs.len() as int)
    &&& g.panic_weight == scope_weight(cs, g.priority, PriorityMode::Panic, cs.len() as int)
    &&& g.total_weight > 0
    &&& g.raw_availability == raw_availability(cs, g.priority)
    &&& g.effective_availability == effective_availability(cs, g.priority, factor)
}

proof fn lemma_scope_le_total<C: PriorityCandidate>(cs: Seq<C>, p: u32, mode: PriorityMode, n: int)
    ensures
        0 <= scope_weight(cs, p, mode, n) <= priority_weight(cs, p, n),
    decreases n,
{
    if n > 0 {
        lemma_scope_le_total(cs, p, mode, n - 1);
        assert(cs[n - 1].spec_weight()@ >= 0);
    }
}

proof fn lemma_priority_weight_mono<C: PriorityCandidate>(cs: Seq<C>, p: u32, a: int, b: int)
    requires
        0 <= a <= b,
    ensures
        priority_weight(cs, p, a) <= priority_weight(cs, p, b),
    decreases b - a,
{
    if a < b {
        lemma_priority_weight_mono(cs, p, a, b - 1);
    }
}

/// Sums the weights of priority `p`: total, eligible, and panic-eligible.
fn group_of<C: PriorityCandidate>(candidates: &[C], p: u32, factor: u32) -> (r: Result<PriorityGroup, PickError>)
    requires
        has_priority(candidates@, p),
    ensures
        priority_weight(candidates@, p, candidates@.len() as int) > u64::MAX ==> r == Err::<
            PriorityGroup,
            PickError,
        >(PickError::WeightOverflow),
        priority_weight(candidates@, p, candidates@.len() as int) <= u64::MAX ==> (r matches Ok(g)
            && g.priority == p && group_matches(candidates@, g, factor)),
{
    let n = candidates.len();
    let mut total: u64 = 0;
    let mut eligible: u64 = 0;
    let mut panic: u64 = 0;
    let mut index: usize = 0;
    while index < n
        invariant
            n == candidates@.len(),
            index <= n,
            total == priority_weight(candidates@, p, index as int),
            eligible == scope_weight(candidates@, p, PriorityMode::Healthy, index as int),
            panic == scope_weight(candidates@, p, PriorityMode::Panic, index as int),
            (exists|i: int| 0 <= i < index && member_at(candidates@, i) && #[trigger] candidates@[i].spec_priority() == p) ==> total > 0,
        decreases n - index,
    {
        let candidate = &candidates[index];
        if candidate.is_priority_member() && candidate.priority() == p {
            let weight = candidate.weight().get() as u64;
            proof {
                lemma_scope_le_total(candidates@, p, PriorityMode::Healthy, index + 1);
                lemma_scope_le_total(candidates@, p, PriorityMode::Panic, index + 1);
            }
            total = match total.checked_add(weight) {
                Some(t) => t,
                None => {
                    proof {
                        lemma_priority_weight_mono(candidates@, p, index + 1, n as int);
                    }
                    return Err(PickError::WeightOverflow);
                },
            };
            if candidate.is_eligible() {
                eligible = eligible + weight;
            }
            if candidate.is_panic_eligible() {
                panic = panic + weight;
            }
        }
        index = index + 1;
    }
    let raw = ratio_units(eligible, total, 100);
    let effective = ratio_units(eligible, total, factor);
    Ok(
        PriorityGroup {
            priority: p,
            total_weight: total,
            eligible_weight: eligible,
            panic_weight: panic,
            raw_availability: raw,
            effective_availability: effective,
        },
    )
}

/// Whether some member priority's total weight overflows `u64`.
pub open spec fn group_overflow<C: PriorityCandidate>(cs: Seq<C>) -> bool {
    exists|p: u32| has_priority(cs, p) && #[trigger] priority_weight(cs, p, cs.len() as int) > u64::MAX
}

/// Builds one group per member priority, in ascending priority order.
fn calculate_groups<C: PriorityCandidate>(candidates: &[C], factor: u32) -> (r: Result<Vec<PriorityGroup>, PickError>)
    ensures
        group_overflow(candidates@) ==> r == Err::<Vec<PriorityGroup>, PickError>(PickError::WeightOverflow),
        !group_overflow(candidates@) ==> (r matches Ok(gs) && is_group_list(
            candidates@,
            gs@.map_values(|g: PriorityGroup| g.priority),
        ) && forall|k: int| 0 <= k < gs@.len() ==> group_matches(candidates@, #[trigger] gs@[k], factor)),
{
    let mut groups: Vec<PriorityGroup> = Vec::new();
    let mut after: Option<u32> = None;
    loop
        invariant
            forall|k: int| 0 <= k < groups@.len() ==> group_matches(candidates@, #[trigger] groups@[k], factor),
            forall|a: int, b: int|
                0 <= a < b < groups@.len() ==> #[trigger] groups@[a].priority < #[trigger] groups@[b].priority,
            after is None <==> groups@.len() == 0,
            after matches Some(a) ==> groups@.last().priority == a,
            forall|i: int|
                member_at(candidates@, i) && !above(after, #[trigger] candidates@[i].spec_priority()) ==> exists|k: int|
                    0 <= k < groups@.len() && #[trigger] groups@[k].priority == candidates@[i].spec_priority(),
        ensures
            forall|i: int| member_at(candidates@, i) ==> !above(after, #[trigger] candidates@[i].spec_priority()),
        decreases (match after {
            None => 0x1_0000_0000int,
            Some(a) => 0xffff_ffff - a as int,
        }),
    {
        match next_priority(candidates, after) {
            None => {
                break;
            },
            Some(q) => {
                match group_of(candidates, q, factor) {
                    Err(e) => {
                        return Err(e);
                    },
                    Ok(g) => {
                        let ghost before = groups@;
                        groups.push(g);
                        proof {
                            assert forall|i: int|
                                member_at(candidates@, i) && !above(Some(q), #[trigger] candidates@[i].spec_priority())
                                implies exists|k: int|
                                0 <= k < groups@.len() && #[trigger] groups@[k].priority
                                    == candidates@[i].spec_priority() by {
                                if above(after, candidates@[i].spec_priority()) {
                                    assert(groups@[before.len() as int].priority == candidates@[i].spec_priority());
                                } else {
                                    let k = choose|k: int|
                                        0 <= k < before.len() && #[trigger] before[k].priority
                                            == candidates@[i].spec_priority();
                                    assert(groups@[k] == before[k]);
                                }
                            }
                        }
                        after = Some(q);
                    },
                }
            },
        }
    }
    let ghost gs = groups@.map_values(|g: PriorityGroup| g.priority);
    proof {
        assert forall|i: int| member_at(candidates@, i) implies gs.contains(#[trigger] candidates@[i].spec_priority()) by {
            let k = choose|k: int|
                0 <= k < groups@.len() && #[trigger] groups@[k].priority == candidates@[i].spec_priority();
            assert(gs[k] == candidates@[i].spec_priority());
        }
        assert forall|p: u32| has_priority(candidates@, p) implies #[trigger] priority_weight(candidates@, p, candidates@.len() as int) <= u64::MAX by {
            let i = choose|i: int| member_at(candidates@, i) && #[trigger] candidates@[i].spec_priority() == p;
            let k = choose|k: int|
                0 <= k < groups@.len() && #[trigger] groups@[k].priority == candidates@[i].spec_priority();
            assert(group_matches(candidates@, groups@[k], factor));
        }
    }
    Ok(groups)
}

/// The effective availability of the first `k` listed priorities, summed
/// and capped at [`TRAFFIC_UNITS`] step by step.
pub open spec fn effective_total<C: PriorityCandidate>(cs: Seq<C>, gs: Seq<u32>, factor: u32, k: int) -> int
    decreases k,
{
    if k <= 0 {
        0
    } else {
        let t = effective_total(cs, gs, factor, k - 1) + effective_availability(cs, gs[k - 1], factor);
        if t < 1_000_000 {
            t
        } else {
            1_000_000
        }
    }
}

/// The traffic units priority `gs[k]` receives: its effective availability,
/// limited by what the higher priorities left.
pub open spec fn traffic_of<C: PriorityCandidate>(cs: Seq<C>, gs: Seq<u32>, factor: u32, k: int) -> int {
    let left = 1_000_000 - effective_total(cs, gs, factor, k);
    let e = effective_availability(cs, gs[k], factor);
    if e < left {
        e
    } else {
        left
    }
}

/// The panic threshold in traffic units.
pub open spec fn panic_units(config: PriorityConfig) -> int {
    config.spec_panic_threshold() as int * 1_000_000 / 100
}

/// Whether priority `p` is in panic: the priorities together are short of
/// full capacity and `p`'s raw availability is below the panic threshold.
pub open spec fn in_panic<C: PriorityCandidate>(cs: Seq<C>, gs: Seq<u32>, config: PriorityConfig, p: u32) -> bool {
    &&& effective_total(cs, gs, config.spec_overprovisioning(), gs.len() as int) < 1_000_000
    &&& panic_units(config) > 0
    &&& raw_availability(cs, p) < panic_units(config)
}

/// The panic-eligible weight of the panicking priorities among the first `k`.
pub open spec fn panic_total<C: PriorityCandidate>(cs: Seq<C>, gs: Seq<u32>, config: PriorityConfig, k: int) -> int
    decreases k,
{
    if k <= 0 {
        0
    } else {
        panic_total(cs, gs, config, k - 1) + if in_panic(cs, gs, config, gs[k - 1]) {
            scope_weight(cs, gs[k - 1], PriorityMode::Panic, cs.len() as int)
        } else {
            0
        }
    }
}

/// The sum of the first `k` entries.
pub open spec fn seq_prefix(ws: Seq<u64>, k: int) -> int
    decreases k,
{
    if k <= 0 {
        0
    } else {
        seq_prefix(ws, k - 1) + ws[k - 1]
    }
}

/// Finds the entry that owns `ticket` when the entries are laid end to end.
pub fn ticket_owner(ws: &Vec<u64>, ticket: u64) -> (k: usize)
    requires
        ticket < seq_prefix(ws@, ws@.len() as int),
    ensures
        k < ws@.len(),
        seq_prefix(ws@, k as int) <= ticket < seq_prefix(ws@, k + 1),
{
    let n = ws.len();
    let mut rest = ticket;
    let mut k: usize = 0;
    while k < n
        invariant
            n == ws@.len(),
            k <= n,
            ticket < seq_prefix(ws@, n as int),
            seq_prefix(ws@, k as int) <= ticket,
            rest == ticket - seq_prefix(ws@, k as int),
        decreases n - k,
    {
        if rest < ws[k] {
            return k;
        }
        rest = rest - ws[k];
        k = k + 1;
    }
    0
}

proof fn lemma_effective_total_range<C: PriorityCandidate>(cs: Seq<C>, gs: Seq<u32>, factor: u32, k: int)
    requires
        0 <= k <= gs.len(),
        forall|j: int| 0 <= j < gs.len() ==> effective_availability(cs, #[trigger] gs[j], factor) >= 0,
    ensures
        0 <= effective_total(cs, gs, factor, k) <= 1_000_000,
    decreases k,
{
    if k > 0 {
        lemma_effective_total_range(cs, gs, factor, k - 1);
    }
}

proof fn lemma_effective_total_bounds<C: PriorityCandidate>(cs: Seq<C>, gs: Seq<u32>, factor: u32, a: int, b: int)
    requires
        0 <= a <= b <= gs.len(),
        forall|k: int| 0 <= k < gs.len() ==> effective_availability(cs, #[trigger] gs[k], factor) >= 0,
    ensures
        0 <= effective_total(cs, gs, factor, a) <= effective_total(cs, gs, factor, b) <= 1_000_000,
    decreases b - a,
{
    lemma_effective_total_range(cs, gs, factor, a);
    lemma_effective_total_range(cs, gs, factor, b);
    if a < b {
        lemma_effective_total_bounds(cs, gs, factor, a, b - 1);
    }
}

spec fn group_priorities(groups: Seq<PriorityGroup>) -> Seq<u32> {
    groups.map_values(|g: PriorityGroup| g.priority)
}

spec fn groups_valid<C: PriorityCandidate>(cs: Seq<C>, groups: Seq<PriorityGroup>, factor: u32) -> bool {
    &&& is_group_list(cs, group_priorities(groups))
    &&& forall|k: int| 0 <= k < groups.len() ==> group_matches(cs, #[trigger] groups[k], factor)
}

proof fn lemma_ratio_nonneg(available: int, total: int, factor: int)
    requires
        available >= 0,
        total > 0,
        factor >= 0,
    ensures
        0 <= spec_ratio_units(available, total, factor) <= 1_000_000,
        spec_ratio_units(available, total, factor) > 0 ==> available > 0,
{
    assert(available * factor * 1_000_000 >= 0) by (nonlinear_arith)
        requires
            available >= 0,
            factor >= 0,
    ;
    assert(available * factor * 1_000_000 / (total * 100) >= 0) by (nonlinear_arith)
        requires
            available * factor * 1_000_000 >= 0,
            total > 0,
    ;
    if available == 0 {
        assert(available * factor * 1_000_000 == 0) by (nonlinear_arith)
            requires
                available == 0,
        ;
    }
}

/// Below a full total, no priority's availability was capped.
proof fn lemma_no_cap<C: PriorityCandidate>(cs: Seq<C>, gs: Seq<u32>, factor: u32, k: int)
    requires
        0 <= k < gs.len(),
        effective_total(cs, gs, factor, gs.len() as int) < 1_000_000,
        forall|j: int| 0 <= j < gs.len() ==> effective_availability(cs, #[trigger] gs[j], factor) >= 0,
    ensures
        effective_total(cs, gs, factor, k) + effective_availability(cs, gs[k], factor) < 1_000_000,
        effective_total(cs, gs, factor, k + 1) == effective_total(cs, gs, factor, k) + effective_availability(cs, gs[k], factor),
{
    lemma_effective_total_bounds(cs, gs, factor, k + 1, gs.len() as int);
}

/// Whether the weighted random draw over candidates in scope of `p` and
/// `mode` lands on `i` for `ticket`.
pub open spec fn scope_ticket_owner<C: PriorityCandidate>(cs: Seq<C>, p: u32, mode: PriorityMode, ticket: int, i: int) -> bool {
    &&& in_scope(cs, i, p, mode)
    &&& scope_weight(cs, p, mode, i) <= ticket < scope_weight(cs, p, mode, i + 1)
}

proof fn lemma_scope_weight_mono<C: PriorityCandidate>(cs: Seq<C>, p: u32, mode: PriorityMode, a: int, b: int)
    requires
        0 <= a <= b,
    ensures
        scope_weight(cs, p, mode, a) <= scope_weight(cs, p, mode, b),
    decreases b - a,
{
    if a < b {
        lemma_scope_weight_mono(cs, p, mode, a, b - 1);
        assert(cs[b - 1].spec_weight()@ >= 0);
    }
}

/// Finds the candidate in scope of `p` and `mode` that owns `ticket` when
/// their weights are laid end to end in slice order.
pub fn select_in_scope<C: PriorityCandidate>(candidates: &[C], p: u32, mode: PriorityMode, ticket: u64) -> (i: usize)
    requires
        ticket < scope_weight(candidates@, p, mode, candidates@.len() as int),
    ensures
        scope_ticket_owner(candidates@, p, mode, ticket as int, i as int),
{
    let n = candidates.len();
    let mut rest = ticket;
    let mut index: usize = 0;
    while index < n
        invariant
            n == candidates@.len(),
            index <= n,
            ticket < scope_weight(candidates@, p, mode, n as int),
            scope_weight(candidates@, p, mode, index as int) <= ticket,
            rest == ticket - scope_weight(candidates@, p, mode, index as int),
        decreases n - index,
    {
        let candidate = &candidates[index];
        let serves = candidate.is_priority_member() && candidate.priority() == p && match mode {
            PriorityMode::Healthy => candidate.is_eligible(),
            PriorityMode::Panic => candidate.is_panic_eligible(),
        };
        if serves {
            let weight = candidate.weight().get() as u64;
            if rest < weight {
                return index;
            }
            rest = rest - weight;
        }
        index = index + 1;
    }
    0
}

/// Weighted random selection inside the preferred healthy priority, with
/// traffic spilling to lower priorities as higher ones lose capacity.
///
/// Each priority's effective availability is its eligible share of weight
/// scaled by the overprovisioning factor and capped at full. Priorities take
/// traffic in ascending order until the total is full; when the total is
/// short, every priority takes its effective availability, and priorities
/// whose raw availability is below the panic threshold are in panic. With no
/// effective availability at all, a panicking priority is drawn by its
/// panic-eligible weight.
pub struct PriorityWeightedRandom {
    config: PriorityConfig,
    rng: StdRng,
}

impl PriorityWeightedRandom {
    /// The configuration.
    pub closed spec fn spec_config(&self) -> PriorityConfig {
        self.config
    }

    /// The generator.
    pub closed spec fn spec_rng(&self) -> StdRng {
        self.rng
    }

    /// Creates a policy seeded from the operating system.
    pub fn new(config: PriorityConfig) -> (p: Self)
        ensures
            p.spec_config() == config,
    {
        Self::with_rng(config, entropy_rng())
    }

    /// Creates a reproducible policy with the default configuration.
    pub fn seeded(seed: u64) -> (p: Self)
        ensures
            p.spec_config().spec_overprovisioning() == DEFAULT_OVERPROVISIONING_FACTOR_PERCENT,
            p.spec_config().spec_panic_threshold() == DEFAULT_PANIC_THRESHOLD_PERCENT,
            p.spec_config().spec_panic_mode() == PanicMode::UseAll,
    {
        Self::with_rng(PriorityConfig::default(), seeded_rng(seed))
    }

    /// Creates a reproducible policy.
    pub fn seeded_with(config: PriorityConfig, seed: u64) -> (p: Self)
        ensures
            p.spec_config() == config,
    {
        Self::with_rng(config, seeded_rng(seed))
    }

    /// Creates a policy over the given generator.
    pub fn with_rng(config: PriorityConfig, rng: StdRng) -> (p: Self)
        ensures
            p.spec_config() == config,
            p.spec_rng() == rng,
    {
        PriorityWeightedRandom { config, rng }
    }

    /// Returns the configuration.
    pub fn config(&self) -> (c: PriorityConfig)
        ensures
            c == self.spec_config(),
    {
        self.config
    }

    /// Returns the generator.
    pub fn rng(&self) -> (r: &StdRng)
        ensures
            *r == self.spec_rng(),
    {
        &self.rng
    }

    /// Returns the generator mutably.
    pub fn rng_mut(&mut self) -> (r: &mut StdRng)
        ensures
            *r == old(self).spec_rng(),
            final(self).spec_rng() == *final(r),
            final(self).spec_config() == old(self).spec_config(),
    {
        &mut self.rng
    }

    /// Decomposes the policy into configuration and generator.
    pub fn into_parts(self) -> (r: (PriorityConfig, StdRng))
        ensures
            r.0 == self.spec_config(),
            r.1 == self.spec_rng(),
    {
        (self.config, self.rng)
    }
}

impl Default for PriorityWeightedRandom {
    fn default() -> (p: Self)
        ensures
            p.spec_config().spec_overprovisioning() == DEFAULT_OVERPROVISIONING_FACTOR_PERCENT,
            p.spec_config().spec_panic_threshold() == DEFAULT_PANIC_THRESHOLD_PERCENT,
            p.spec_config().spec_panic_mode() == PanicMode::UseAll,
    {
        Self::new(PriorityConfig::default())
    }
}

/// What holds of every outcome of drawing a priority scope over the group
/// list `gs`: deterministic errors first, then the properties of whichever
/// scope the draw produced.
pub open spec fn scope_outcome<C: PriorityCandidate>(
    cs: Seq<C>,
    gs: Seq<u32>,
    config: PriorityConfig,
    r: Result<(u32, PriorityMode), PickError>,
) -> bool {
    let factor = config.spec_overprovisioning();
    let et = effective_total(cs, gs, factor, gs.len() as int);
    let pw = panic_total(cs, gs, config, gs.len() as int);
    let n = cs.len() as int;
    &&& et == 0 && pw > u64::MAX ==> r == Err::<(u32, PriorityMode), PickError>(PickError::WeightOverflow)
    &&& et == 0 && pw == 0 ==> r == Err::<(u32, PriorityMode), PickError>(PickError::NoEligibleCandidates)
    &&& et == 0 && 0 < pw <= u64::MAX && config.spec_panic_mode() == PanicMode::FailClosed ==> r == Err::<
        (u32, PriorityMode),
        PickError,
    >(PickError::PanicRejected)
    &&& et == 0 && 0 < pw <= u64::MAX && config.spec_panic_mode() == PanicMode::UseAll ==> (r matches Ok(
        (p, m),
    ) && m == PriorityMode::Panic && gs.contains(p) && in_panic(cs, gs, config, p) && scope_weight(
        cs,
        p,
        m,
        n,
    ) > 0)
    &&& et > 0 ==> exists|ticket: int| 0 <= ticket < et && #[trigger] ticket_scope(cs, gs, config, ticket, r)
    &&& et == 0 && 0 < pw <= u64::MAX && config.spec_panic_mode() == PanicMode::UseAll ==> exists|ticket: int|
        0 <= ticket < pw && #[trigger] ticket_scope(cs, gs, config, ticket, r)
    &&& et > 0 ==> (r matches Ok((p, m)) ==> gs.contains(p) && exists|k: int|
        0 <= k < gs.len() && #[trigger] gs[k] == p && traffic_of(cs, gs, factor, k) > 0 && (m
            == PriorityMode::Panic <==> in_panic(cs, gs, config, p)) && scope_weight(cs, p, m, n) > 0)
    &&& et > 0 ==> (r matches Err(e) ==> ((e == PickError::PanicRejected && config.spec_panic_mode()
        == PanicMode::FailClosed) || e == PickError::NoEligibleCandidates) && exists|k: int|
        0 <= k < gs.len() && traffic_of(cs, gs, factor, k) > 0 && in_panic(cs, gs, config, #[trigger] gs[k]))
}

proof fn lemma_panic_total_mono<C: PriorityCandidate>(cs: Seq<C>, gs: Seq<u32>, config: PriorityConfig, a: int, b: int)
    requires
        0 <= a <= b,
    ensures
        panic_total(cs, gs, config, a) <= panic_total(cs, gs, config, b),
    decreases b - a,
{
    if a < b {
        lemma_panic_total_mono(cs, gs, config, a, b - 1);
        lemma_scope_le_total(cs, gs[b - 1], PriorityMode::Panic, cs.len() as int);
    }
}

/// The scope that the priority at position `k` of `gs` answers when a
/// traffic draw lands on it: its healthy members, or its panic-eligible
/// members when it panics, which fail-closed mode rejects.
pub open spec fn traffic_scope<C: PriorityCandidate>(
    cs: Seq<C>,
    gs: Seq<u32>,
    config: PriorityConfig,
    k: int,
) -> Result<(u32, PriorityMode), PickError> {
    let p = gs[k];
    let n = cs.len() as int;
    if in_panic(cs, gs, config, p) {
        if config.spec_panic_mode() == PanicMode::FailClosed {
            Err(PickError::PanicRejected)
        } else if scope_weight(cs, p, PriorityMode::Panic, n) == 0 {
            Err(PickError::NoEligibleCandidates)
        } else {
            Ok((p, PriorityMode::Panic))
        }
    } else if scope_weight(cs, p, PriorityMode::Healthy, n) == 0 {
        Err(PickError::NoEligibleCandidates)
    } else {
        Ok((p, PriorityMode::Healthy))
    }
}

/// The bound a scope draw is taken below: the effective total when some
/// priority keeps effective availability, otherwise the panic-eligible
/// weight of the panicking priorities.
pub open spec fn scope_draw_total<C: PriorityCandidate>(cs: Seq<C>, gs: Seq<u32>, config: PriorityConfig) -> int {
    let et = effective_total(cs, gs, config.spec_overprovisioning(), gs.len() as int);
    if et > 0 {
        et
    } else {
        panic_total(cs, gs, config, gs.len() as int)
    }
}

/// Whether `r` is the scope that `ticket` draws over `gs`: with effective
/// availability, the priority whose traffic share holds the ticket, laid
/// end to end in priority order; without it, the panicking priority whose
/// panic-eligible weight holds the ticket.
pub open spec fn ticket_scope<C: PriorityCandidate>(
    cs: Seq<C>,
    gs: Seq<u32>,
    config: PriorityConfig,
    ticket: int,
    r: Result<(u32, PriorityMode), PickError>,
) -> bool {
    let factor = config.spec_overprovisioning();
    let g = gs.len() as int;
    if effective_total(cs, gs, factor, g) > 0 {
        exists|k: int|
            0 <= k < g && effective_total(cs, gs, factor, k) <= ticket < #[trigger] effective_total(cs, gs, factor, k + 1)
                && r == traffic_scope(cs, gs, config, k)
    } else {
        exists|k: int|
            0 <= k < g && panic_total(cs, gs, config, k) <= ticket < #[trigger] panic_total(cs, gs, config, k + 1)
                && r == Ok::<(u32, PriorityMode), PickError>((gs[k], PriorityMode::Panic))
    }
}

/// The scope a ticket answers, given the group list: the deterministic
/// errors of a scope draw, then the scope `ticket` draws.
pub open spec fn scope_answer<C: PriorityCandidate>(
    cs: Seq<C>,
    gs: Seq<u32>,
    config: PriorityConfig,
    ticket: int,
    r: Result<(u32, PriorityMode), PickError>,
) -> bool {
    let et = effective_total(cs, gs, config.spec_overprovisioning(), gs.len() as int);
    let pw = panic_total(cs, gs, config, gs.len() as int);
    if et == 0 && pw > u64::MAX {
        r == Err::<(u32, PriorityMode), PickError>(PickError::WeightOverflow)
    } else if et == 0 && config.spec_panic_mode() == PanicMode::FailClosed {
        r == Err::<(u32, PriorityMode), PickError>(PickError::PanicRejected)
    } else {
        ticket_scope(cs, gs, config, ticket, r)
    }
}

/// The draw weights of each group, their prefix sums, and whether the draw
/// is over traffic shares.
spec fn draw_weights_ok<C: PriorityCandidate>(
    cs: Seq<C>,
    gs: Seq<u32>,
    config: PriorityConfig,
    ws: Seq<u64>,
    total: u64,
    traffic: bool,
) -> bool {
    let factor = config.spec_overprovisioning();
    let g = gs.len() as int;
    let et = effective_total(cs, gs, factor, g);
    &&& ws.len() == g
    &&& traffic == (et > 0)
    &&& total == seq_prefix(ws, g)
    &&& total == scope_draw_total(cs, gs, config)
    &&& total > 0
    &&& traffic ==> forall|k: int| 0 <= k <= g ==> #[trigger] seq_prefix(ws, k) == effective_total(cs, gs, factor, k)
    &&& traffic ==> forall|j: int| 0 <= j < g ==> #[trigger] ws[j] == traffic_of(cs, gs, factor, j)
    &&& !traffic ==> forall|k: int| 0 <= k <= g ==> #[trigger] seq_prefix(ws, k) == panic_total(cs, gs, config, k)
    &&& !traffic ==> forall|j: int| 0 <= j < g ==> #[trigger] ws[j] == (if in_panic(cs, gs, config, gs[j]) {
        scope_weight(cs, gs[j], PriorityMode::Panic, cs.len() as int)
    } else {
        0
    })
    &&& !traffic ==> config.spec_panic_mode() == PanicMode::UseAll
}

/// Computes the weights a scope draw is taken over, or the error that
/// comes before any draw.
#[verifier::rlimit(80)]
fn draw_weights<C: PriorityCandidate>(candidates: &[C], groups: &Vec<PriorityGroup>, config: PriorityConfig) -> (r: Result<
    (Vec<u64>, u64, bool),
    PickError,
>)
    requires
        groups_valid(candidates@, groups@, config.spec_overprovisioning()),
    ensures
        ({
            let cs = candidates@;
            let gs = group_priorities(groups@);
            let factor = config.spec_overprovisioning();
            let et = effective_total(cs, gs, factor, gs.len() as int);
            let pw = panic_total(cs, gs, config, gs.len() as int);
            &&& et == 0 && pw > u64::MAX ==> r == Err::<(Vec<u64>, u64, bool), PickError>(PickError::WeightOverflow)
            &&& et == 0 && pw == 0 ==> r == Err::<(Vec<u64>, u64, bool), PickError>(PickError::NoEligibleCandidates)
            &&& et == 0 && 0 < pw <= u64::MAX && config.spec_panic_mode() == PanicMode::FailClosed ==> r == Err::<
                (Vec<u64>, u64, bool),
                PickError,
            >(PickError::PanicRejected)
            &&& (et > 0 || (0 < pw <= u64::MAX && config.spec_panic_mode() == PanicMode::UseAll)) ==> (r matches Ok(
                (ws, total, traffic),
            ) && draw_weights_ok(cs, gs, config, ws@, total, traffic))
            &&& r matches Ok((ws, total, traffic)) ==> draw_weights_ok(cs, gs, config, ws@, total, traffic)
        }),
{
    proof {
        use_type_invariant(&config);
    }
        let factor = config.overprovisioning_factor_percent;
        let g = groups.len();
        let ghost cs = candidates@;
        let ghost gs = group_priorities(groups@);
        assert(gs.len() == g);
        proof {
            assert forall|j: int| 0 <= j < gs.len() implies effective_availability(cs, #[trigger] gs[j], factor) >= 0 by {
                assert(group_matches(cs, groups@[j], factor));
            }
        }
        let mut te: u64 = 0;
        let mut k: usize = 0;
        while k < g
            invariant
                g == groups@.len(),
                gs == group_priorities(groups@),
                gs.len() == g,
                cs == candidates@,
                groups_valid(cs, groups@, factor),
                k <= g,
                te == effective_total(cs, gs, factor, k as int),
                te <= 1_000_000,
            decreases g - k,
        {
            assert(group_matches(cs, groups@[k as int], factor));
            let t = te + groups[k].effective_availability;
            te = if t < 1_000_000 {
                t
            } else {
                1_000_000
            };
            k = k + 1;
        }
        let shortage = te < 1_000_000;
        let threshold: u64 = config.panic_threshold_percent as u64 * 1_000_000 / 100;
        let mut panics: Vec<bool> = Vec::new();
        k = 0;
        while k < g
            invariant
                g == groups@.len(),
                gs == group_priorities(groups@),
                gs.len() == g,
                cs == candidates@,
                groups_valid(cs, groups@, factor),
                factor == config.spec_overprovisioning(),
                te == effective_total(cs, gs, factor, g as int),
                shortage == (te < 1_000_000),
                threshold == panic_units(config),
                k <= g,
                panics@.len() == k,
                forall|j: int| 0 <= j < k ==> #[trigger] panics@[j] == in_panic(cs, gs, config, gs[j]),
            decreases g - k,
        {
            assert(group_matches(cs, groups@[k as int], factor));
            panics.push(shortage && threshold > 0 && groups[k].raw_availability < threshold);
            k = k + 1;
        }
        if te == 0 {
            let mut weights: Vec<u64> = Vec::new();
            let mut sum: u64 = 0;
            k = 0;
            while k < g
                invariant
                    g == groups@.len(),
                    g == panics@.len(),
                    gs == group_priorities(groups@),
                    gs.len() == g,
                    cs == candidates@,
                cs == candidates@,
                gs.len() == g,
                cs == candidates@,
                    groups_valid(cs, groups@, factor),
                    forall|j: int| 0 <= j < g ==> #[trigger] panics@[j] == in_panic(cs, gs, config, gs[j]),
                    k <= g,
                    weights@.len() == k,
                    forall|j: int|
                        0 <= j < k ==> #[trigger] weights@[j] == (if in_panic(cs, gs, config, gs[j]) {
                            scope_weight(cs, gs[j], PriorityMode::Panic, cs.len() as int)
                        } else {
                            0
                        }),
                    sum == seq_prefix(weights@, k as int),
                    sum == panic_total(cs, gs, config, k as int),
                    te == 0,
                    te == effective_total(cs, gs, factor, g as int),
                    factor == config.spec_overprovisioning(),
                decreases g - k,
            {
                assert(group_matches(cs, groups@[k as int], factor));
                let w = if panics[k] {
                    groups[k].panic_weight
                } else {
                    0
                };
                let ghost before = weights@;
                weights.push(w);
                proof {
                    assert(weights@.take(k as int) =~= before);
                    assert(seq_prefix(weights@, k as int) == seq_prefix(before, k as int)) by {
                        lemma_seq_prefix_push(before, w, k as int);
                    }
                }
                assert(panic_total(cs, gs, config, k + 1) == sum + w);
                sum = match sum.checked_add(w) {
                    Some(t) => t,
                    None => {
                        proof {
                            lemma_panic_total_mono(cs, gs, config, k + 1, g as int);
                        }
                        return Err(PickError::WeightOverflow);
                    },
                };
                k = k + 1;
            }
            if sum == 0 {
                return Err(PickError::NoEligibleCandidates);
            }
            if config.panic_mode == PanicMode::FailClosed {
                return Err(PickError::PanicRejected);
            }
            proof {
                assert forall|j: int| 0 <= j <= g implies #[trigger] seq_prefix(weights@, j) == panic_total(cs, gs, config, j) by {
                    lemma_prefix_panic(cs, gs, config, weights@, j);
                }
            }
            return Ok((weights, sum, false));
        }
        let mut traffic: Vec<u64> = Vec::new();
        let mut total: u64 = 0;
        let mut remaining: u64 = 1_000_000;
        k = 0;
        while k < g
            invariant
                g == groups@.len(),
                gs == group_priorities(groups@),
                gs.len() == g,
                cs == candidates@,
                groups_valid(cs, groups@, factor),
                forall|j: int| 0 <= j < gs.len() ==> effective_availability(cs, #[trigger] gs[j], factor) >= 0,
                te == effective_total(cs, gs, factor, g as int),
                shortage == (te < 1_000_000),
                k <= g,
                traffic@.len() == k,
                forall|j: int| 0 <= j < k ==> #[trigger] traffic@[j] == traffic_of(cs, gs, factor, j),
                total == seq_prefix(traffic@, k as int),
                total == effective_total(cs, gs, factor, k as int),
                remaining == 1_000_000 - total,
            decreases g - k,
        {
            assert(group_matches(cs, groups@[k as int], factor));
            proof {
                lemma_effective_total_bounds(cs, gs, factor, k as int, g as int);
                if shortage {
                    lemma_no_cap(cs, gs, factor, k as int);
                }
            }
            let effective = groups[k].effective_availability;
            let t = if shortage {
                effective
            } else if effective < remaining {
                effective
            } else {
                remaining
            };
            let ghost before = traffic@;
            traffic.push(t);
            proof {
                lemma_seq_prefix_push(before, t, k as int);
            }
            total = total + t;
            remaining = remaining - t;
            k = k + 1;
        }
        proof {
            lemma_effective_total_range(cs, gs, factor, g as int);
            assert forall|j: int| 0 <= j <= g implies #[trigger] seq_prefix(traffic@, j) == effective_total(cs, gs, factor, j) by {
                lemma_prefix_traffic(cs, gs, factor, traffic@, j);
            }
        }
        Ok((traffic, total, true))
}

proof fn lemma_prefix_panic<C: PriorityCandidate>(cs: Seq<C>, gs: Seq<u32>, config: PriorityConfig, ws: Seq<u64>, j: int)
    requires
        0 <= j <= ws.len(),
        ws.len() == gs.len(),
        forall|i: int| 0 <= i < ws.len() ==> #[trigger] ws[i] == (if in_panic(cs, gs, config, gs[i]) {
            scope_weight(cs, gs[i], PriorityMode::Panic, cs.len() as int)
        } else {
            0
        }),
    ensures
        seq_prefix(ws, j) == panic_total(cs, gs, config, j),
    decreases j,
{
    if j > 0 {
        lemma_prefix_panic(cs, gs, config, ws, j - 1);
        assert(ws[j - 1] == (if in_panic(cs, gs, config, gs[j - 1]) {
            scope_weight(cs, gs[j - 1], PriorityMode::Panic, cs.len() as int)
        } else {
            0
        }));
    }
}

proof fn lemma_prefix_traffic<C: PriorityCandidate>(cs: Seq<C>, gs: Seq<u32>, factor: u32, ws: Seq<u64>, j: int)
    requires
        0 <= j <= ws.len(),
        ws.len() == gs.len(),
        forall|k: int| 0 <= k < gs.len() ==> effective_availability(cs, #[trigger] gs[k], factor) >= 0,
        forall|i: int| 0 <= i < ws.len() ==> #[trigger] ws[i] == traffic_of(cs, gs, factor, i),
    ensures
        seq_prefix(ws, j) == effective_total(cs, gs, factor, j),
    decreases j,
{
    if j > 0 {
        lemma_prefix_traffic(cs, gs, factor, ws, j - 1);
        lemma_effective_total_range(cs, gs, factor, j - 1);
        assert(ws[j - 1] == traffic_of(cs, gs, factor, j - 1));
    }
}

/// Answers the scope that `ticket` draws, given the draw weights.
#[verifier::rlimit(40)]
fn resolve_ticket<C: PriorityCandidate>(
    candidates: &[C],
    groups: &Vec<PriorityGroup>,
    config: PriorityConfig,
    ws: &Vec<u64>,
    total: u64,
    traffic: bool,
    ticket: u64,
) -> (r: Result<(u32, PriorityMode), PickError>)
    requires
        groups_valid(candidates@, groups@, config.spec_overprovisioning()),
        draw_weights_ok(candidates@, group_priorities(groups@), config, ws@, total, traffic),
        ticket < total,
    ensures
        ({
            let cs = candidates@;
            let gs = group_priorities(groups@);
            let factor = config.spec_overprovisioning();
            let et = effective_total(cs, gs, factor, gs.len() as int);
            &&& ticket_scope(cs, gs, config, ticket as int, r)
            &&& r matches Ok((p, m)) ==> gs.contains(p) && scope_weight(cs, p, m, cs.len() as int) > 0 && (
            m == PriorityMode::Panic <==> in_panic(cs, gs, config, p))
            &&& et > 0 ==> (r matches Ok((p, m)) ==> exists|k: int|
                0 <= k < gs.len() && #[trigger] gs[k] == p && traffic_of(cs, gs, factor, k) > 0)
            &&& et > 0 ==> (r matches Err(e) ==> ((e == PickError::PanicRejected && config.spec_panic_mode()
                == PanicMode::FailClosed) || e == PickError::NoEligibleCandidates) && exists|k: int|
                0 <= k < gs.len() && traffic_of(cs, gs, factor, k) > 0 && in_panic(cs, gs, config, #[trigger] gs[k]))
            &&& et == 0 ==> (r matches Ok((p, m)) && m == PriorityMode::Panic && in_panic(cs, gs, config, p))
        }),
{
    proof {
        use_type_invariant(&config);
    }
    let ghost cs = candidates@;
    let ghost gs = group_priorities(groups@);
    let factor = config.overprovisioning_factor_percent;
    let g = groups.len();
    assert(gs.len() == g);
    let chosen = ticket_owner(ws, ticket);
    let group = groups[chosen];
    let ghost c = chosen as int;
    proof {
        assert(gs[c] == group.priority);
        assert(gs.contains(group.priority));
        assert(group_matches(cs, group, factor));
        assert(seq_prefix(ws@, c + 1) == seq_prefix(ws@, c) + ws@[c]);
        assert(ws@[c] > 0);
    }
    if !traffic {
        proof {
            assert(seq_prefix(ws@, c) == panic_total(cs, gs, config, c));
            assert(seq_prefix(ws@, c + 1) == panic_total(cs, gs, config, c + 1));
            assert(in_panic(cs, gs, config, gs[c]));
            let r: Result<(u32, PriorityMode), PickError> = Ok((group.priority, PriorityMode::Panic));
            assert(panic_total(cs, gs, config, c) <= ticket < panic_total(cs, gs, config, c + 1) && r == Ok::<
                (u32, PriorityMode),
                PickError,
            >((gs[c], PriorityMode::Panic)));
        }
        return Ok((group.priority, PriorityMode::Panic));
    }
    proof {
        assert(seq_prefix(ws@, c) == effective_total(cs, gs, factor, c));
        assert(seq_prefix(ws@, c + 1) == effective_total(cs, gs, factor, c + 1));
        assert(ws@[c] == traffic_of(cs, gs, factor, c));
        lemma_ratio_nonneg(group.eligible_weight as int, group.total_weight as int, factor as int);
    }
    let shortage = total < 1_000_000;
    let threshold: u64 = config.panic_threshold_percent as u64 * 1_000_000 / 100;
    let panics = shortage && threshold > 0 && group.raw_availability < threshold;
    assert(panics == in_panic(cs, gs, config, gs[c]));
    let r = if panics {
        if config.panic_mode == PanicMode::FailClosed {
            Err(PickError::PanicRejected)
        } else if group.panic_weight == 0 {
            Err(PickError::NoEligibleCandidates)
        } else {
            Ok((group.priority, PriorityMode::Panic))
        }
    } else {
        if group.eligible_weight == 0 {
            Err(PickError::NoEligibleCandidates)
        } else {
            Ok((group.priority, PriorityMode::Healthy))
        }
    };
    proof {
        assert(r == traffic_scope(cs, gs, config, c));
        assert(effective_total(cs, gs, factor, c) <= ticket < effective_total(cs, gs, factor, c + 1));
    }
    r
}

/// Answers the priority scope that a draw of `ticket` selects over
/// `candidates`, or the error that comes before any draw.
pub fn scope_for_ticket<C: PriorityCandidate>(candidates: &[C], config: PriorityConfig, ticket: u64) -> (r: Result<
    (u32, PriorityMode),
    PickError,
>)
    requires
        forall|gs: Seq<u32>| #[trigger] is_group_list(candidates@, gs) ==> ticket < scope_draw_total(candidates@, gs, config),
    ensures
        group_overflow(candidates@) ==> r == Err::<(u32, PriorityMode), PickError>(PickError::WeightOverflow),
        !group_overflow(candidates@) ==> exists|gs: Seq<u32>|
            #[trigger] is_group_list(candidates@, gs) && scope_answer(candidates@, gs, config, ticket as int, r),
{
    proof {
        use_type_invariant(&config);
    }
    let groups = match calculate_groups(candidates, config.overprovisioning_factor_percent) {
        Ok(g) => g,
        Err(e) => {
            return Err(e);
        },
    };
    let ghost gs = group_priorities(groups@);
    assert(is_group_list(candidates@, gs));
    assert(ticket < scope_draw_total(candidates@, gs, config));
    let r = match draw_weights(candidates, &groups, config) {
        Ok((ws, total, traffic)) => resolve_ticket(candidates, &groups, config, &ws, total, traffic, ticket),
        Err(e) => Err(e),
    };
    proof {
        let cs = candidates@;
        let et = effective_total(cs, gs, config.spec_overprovisioning(), gs.len() as int);
        let pw = panic_total(cs, gs, config, gs.len() as int);
        let factor = config.spec_overprovisioning();
        assert forall|j: int| 0 <= j < gs.len() implies effective_availability(cs, #[trigger] gs[j], factor) >= 0 by {
            assert(group_matches(cs, groups@[j], factor));
        }
        lemma_effective_total_range(cs, gs, factor, gs.len() as int);
        if et == 0 {
            assert(ticket < pw);
        }
        if et == 0 && pw > u64::MAX {
            assert(r == Err::<(u32, PriorityMode), PickError>(PickError::WeightOverflow));
        } else if et == 0 && config.spec_panic_mode() == PanicMode::FailClosed {
            assert(pw > 0);
            assert(r == Err::<(u32, PriorityMode), PickError>(PickError::PanicRejected));
        } else {
            assert(et > 0 || (0 < pw <= u64::MAX && config.spec_panic_mode() == PanicMode::UseAll));
            assert(ticket_scope(cs, gs, config, ticket as int, r));
        }
    }
    assert(scope_answer(candidates@, gs, config, ticket as int, r));
    r
}

impl PriorityWeightedRandom {
    fn select_scope<C: PriorityCandidate>(&mut self, candidates: &[C], groups: &Vec<PriorityGroup>) -> (r: Result<(u32, PriorityMode), PickError>)
        requires
            groups_valid(candidates@, groups@, old(self).spec_config().spec_overprovisioning()),
        ensures
            final(self).spec_config() == old(self).spec_config(),
            scope_outcome(candidates@, group_priorities(groups@), old(self).spec_config(), r),
    {
        let config = self.config;
        let (ws, total, traffic) = match draw_weights(candidates, groups, config) {
            Ok(w) => w,
            Err(e) => {
                return Err(e);
            },
        };
        let ticket = random_below(&mut self.rng, total);
        let r = resolve_ticket(candidates, groups, config, &ws, total, traffic, ticket);
        proof {
            assert(ticket_scope(candidates@, group_priorities(groups@), config, ticket as int, r));
        }
        r
    }
}

proof fn lemma_seq_prefix_push(ws: Seq<u64>, w: u64, k: int)
    requires
        k == ws.len(),
    ensures
        seq_prefix(ws.push(w), k) == seq_prefix(ws, k),
        seq_prefix(ws.push(w), k + 1) == seq_prefix(ws, k) + w,
{
    assert forall|j: int| 0 <= j <= k implies #[trigger] seq_prefix(ws.push(w), j) == seq_prefix(ws, j) by {
        lemma_seq_prefix_same(ws.push(w), ws, j);
    }
}

proof fn lemma_seq_prefix_same(a: Seq<u64>, b: Seq<u64>, j: int)
    requires
        0 <= j <= a.len(),
        j <= b.len(),
        forall|i: int| 0 <= i < j ==> a[i] == b[i],
    ensures
        seq_prefix(a, j) == seq_prefix(b, j),
    decreases j,
{
    if j > 0 {
        lemma_seq_prefix_same(a, b, j - 1);
    }
}

/// Whether the selection `r` is a member serving the scope `scope`, or the
/// same error.
pub open spec fn scope_pick<C: PriorityCandidate>(
    cs: Seq<C>,
    scope: Result<(u32, PriorityMode), PickError>,
    r: Result<Selection, PickError>,
) -> bool {
    match scope {
        Ok((p, m)) => r matches Ok(s) && in_scope(cs, s@ as int, p, m),
        Err(e) => r == Err::<Selection, PickError>(e),
    }
}

/// Whether some candidate is a priority member.
pub open spec fn any_member<C: PriorityCandidate>(cs: Seq<C>) -> bool {
    exists|i: int| #[trigger] member_at(cs, i)
}

/// The scope a decision came from.
pub open spec fn decision_scope(r: Result<PriorityDecision, PickError>) -> Result<(u32, PriorityMode), PickError> {
    match r {
        Ok(d) => Ok((d.spec_priority(), d.spec_mode())),
        Err(e) => Err(e),
    }
}

/// What holds of every decision over the group list `gs`: the scope
/// follows [`scope_outcome`], and the selected member serves that scope.
pub open spec fn decision_outcome<C: PriorityCandidate>(
    cs: Seq<C>,
    gs: Seq<u32>,
    config: PriorityConfig,
    r: Result<PriorityDecision, PickError>,
) -> bool {
    &&& scope_outcome(cs, gs, config, decision_scope(r))
    &&& r matches Ok(d) ==> in_scope(cs, d.spec_selection()@ as int, d.spec_priority(), d.spec_mode())
}

impl PriorityWeightedRandom {
    fn select_member<C: PriorityCandidate>(&mut self, candidates: &[C], p: u32, mode: PriorityMode) -> (s: Selection)
        requires
            0 < scope_weight(candidates@, p, mode, candidates@.len() as int) <= u64::MAX,
        ensures
            final(self).spec_config() == old(self).spec_config(),
            in_scope(candidates@, s@ as int, p, mode),
    {
        let n = candidates.len();
        let mut total: u64 = 0;
        let mut index: usize = 0;
        while index < n
            invariant
                n == candidates@.len(),
                index <= n,
                scope_weight(candidates@, p, mode, n as int) <= u64::MAX,
                total == scope_weight(candidates@, p, mode, index as int),
            decreases n - index,
        {
            proof {
                lemma_scope_weight_mono(candidates@, p, mode, index + 1, n as int);
            }
            let candidate = &candidates[index];
            let serves = candidate.is_priority_member() && candidate.priority() == p && match mode {
                PriorityMode::Healthy => candidate.is_eligible(),
                PriorityMode::Panic => candidate.is_panic_eligible(),
            };
            if serves {
                total = total + candidate.weight().get() as u64;
            }
            index = index + 1;
        }
        let ticket = random_below(&mut self.rng, total);
        Selection::new(select_in_scope(candidates, p, mode, ticket))
    }

    /// Draws a priority scope by traffic share: the priority and whether its
    /// healthy or panic-eligible members serve it.
    pub(crate) fn choose_scope<C: PriorityCandidate>(&mut self, candidates: &[C]) -> (r: Result<
        (u32, PriorityMode),
        PickError,
    >)
        ensures
            final(self).spec_config() == old(self).spec_config(),
            ({
                let cs = candidates@;
                let config = old(self).spec_config();
                &&& cs.len() == 0 ==> r == Err::<(u32, PriorityMode), PickError>(PickError::Empty)
                &&& cs.len() > 0 && !any_member(cs) ==> r == Err::<(u32, PriorityMode), PickError>(
                    PickError::NoEligibleCandidates,
                )
                &&& any_member(cs) && group_overflow(cs) ==> r == Err::<(u32, PriorityMode), PickError>(
                    PickError::WeightOverflow,
                )
                &&& any_member(cs) && !group_overflow(cs) ==> exists|gs: Seq<u32>|
                    #[trigger] is_group_list(cs, gs) && scope_outcome(cs, gs, config, r)
                &&& r matches Ok((p, m)) ==> 0 < scope_weight(cs, p, m, cs.len() as int) <= u64::MAX
            }),
    {
        let n = candidates.len();
        if n == 0 {
            return Err(PickError::Empty);
        }
        match next_priority(candidates, None) {
            None => {
                proof {
                    if any_member(candidates@) {
                        let i = choose|i: int| #[trigger] member_at(candidates@, i);
                        assert(!above(None, candidates@[i].spec_priority()));
                    }
                }
                return Err(PickError::NoEligibleCandidates);
            },
            Some(_) => {},
        }
        proof {
            use_type_invariant(&self.config);
        }
        let factor = self.config.overprovisioning_factor_percent;
        let groups = match calculate_groups(candidates, factor) {
            Ok(g) => g,
            Err(e) => {
                return Err(e);
            },
        };
        let ghost gs = group_priorities(groups@);
        let r = self.select_scope(candidates, &groups);
        proof {
            let config = self.config;
            assert(scope_outcome(candidates@, gs, config, r));
            assert(is_group_list(candidates@, gs));
            if let Ok((p, mode)) = r {
                lemma_panic_total_mono(candidates@, gs, config, 0, gs.len() as int);
                assert forall|j: int| 0 <= j < gs.len() implies effective_availability(
                    candidates@,
                    #[trigger] gs[j],
                    config.spec_overprovisioning(),
                ) >= 0 by {
                    assert(group_matches(candidates@, groups@[j], factor));
                }
                lemma_effective_total_range(candidates@, gs, config.spec_overprovisioning(), gs.len() as int);
                assert(gs.contains(p));
                let k = choose|k: int| 0 <= k < gs.len() && gs[k] == p;
                assert(has_priority(candidates@, gs[k]));
                lemma_scope_le_total(candidates@, p, mode, n as int);
            }
        }
        r
    }

    /// Draws a ticket below `bound` from the generator.
    pub(crate) fn draw_below(&mut self, bound: u64) -> (t: u64)
        requires
            bound > 0,
        ensures
            final(self).spec_config() == old(self).spec_config(),
            t < bound,
    {
        random_below(&mut self.rng, bound)
    }

    /// Chooses a priority scope by traffic share, then a member inside it by
    /// weight.
    pub fn decide<C: PriorityCandidate>(&mut self, candidates: &[C]) -> (r: Result<PriorityDecision, PickError>)
        ensures
            final(self).spec_config() == old(self).spec_config(),
            ({
                let cs = candidates@;
                let config = old(self).spec_config();
                &&& cs.len() == 0 ==> r == Err::<PriorityDecision, PickError>(PickError::Empty)
                &&& cs.len() > 0 && !any_member(cs) ==> r == Err::<PriorityDecision, PickError>(
                    PickError::NoEligibleCandidates,
                )
                &&& any_member(cs) && group_overflow(cs) ==> r == Err::<PriorityDecision, PickError>(
                    PickError::WeightOverflow,
                )
                &&& any_member(cs) && !group_overflow(cs) ==> exists|gs: Seq<u32>|
                    #[trigger] is_group_list(cs, gs) && decision_outcome(cs, gs, config, r)
            }),
    {
        let r = self.choose_scope(candidates);
        match r {
            Err(e) => Err(e),
            Ok((p, mode)) => {
                let selection = self.select_member(candidates, p, mode);
                let d = PriorityDecision { selection, priority: p, mode };
                proof {
                    assert(decision_scope(Ok(d)) == r);
                    if any_member(candidates@) && !group_overflow(candidates@) {
                        let gs = choose|gs: Seq<u32>|
                            #[trigger] is_group_list(candidates@, gs) && scope_outcome(
                                candidates@,
                                gs,
                                old(self).spec_config(),
                                r,
                            );
                        assert(decision_outcome(candidates@, gs, old(self).spec_config(), Ok(d)));
                    }
                }
                Ok(d)
            },
        }
    }
}

impl<C: PriorityCandidate, Context: ?Sized> Policy<C, Context> for PriorityWeightedRandom {
    open spec fn pick_outcome(
        &self,
        after: &Self,
        candidates: &[C],
        context: &Context,
        r: Result<Selection, PickError>,
    ) -> bool {
        &&& ({
            let cs = candidates@;
            &&& cs.len() == 0 ==> r == Err::<Selection, PickError>(PickError::Empty)
            &&& cs.len() > 0 && !any_member(cs) ==> r == Err::<Selection, PickError>(
                PickError::NoEligibleCandidates,
            )
            &&& any_member(cs) && group_overflow(cs) ==> r == Err::<Selection, PickError>(
                PickError::WeightOverflow,
            )
            &&& r matches Ok(s) ==> exists|p: u32, m: PriorityMode| #[trigger] in_scope(cs, s@ as int, p, m)
            &&& any_member(cs) && !group_overflow(cs) ==> exists|gs: Seq<u32>, scope: Result<(u32, PriorityMode), PickError>|
                #[trigger] is_group_list(cs, gs) && #[trigger] scope_outcome(cs, gs, self.spec_config(), scope)
                    && scope_pick(cs, scope, r)
        })
        &&& after.spec_config() == self.spec_config()
    }

    /// Selects the member of [`PriorityWeightedRandom::decide`].
    fn pick(&mut self, candidates: &[C], context: &Context) -> (r: Result<Selection, PickError>) {
        let ghost config = self.spec_config();
        let d = self.decide(candidates);
        let r = match d {
            Ok(d) => {
                proof {
                    assert(in_scope(candidates@, d.spec_selection()@ as int, d.spec_priority(), d.spec_mode()));
                }
                Ok(d.selection())
            },
            Err(e) => Err(e),
        };
        proof {
            let cs = candidates@;
            if any_member(cs) && !group_overflow(cs) {
                let gs = choose|gs: Seq<u32>| #[trigger] is_group_list(cs, gs) && decision_outcome(cs, gs, config, d);
                assert(scope_outcome(cs, gs, config, decision_scope(d)));
                assert(scope_pick(cs, decision_scope(d), r));
            }
        }
        r
    }
}

} // verus!
