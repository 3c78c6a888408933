//! Expiring, use-limited probe observations for probe-driven selection.

use vstd::prelude::*;

use crate::backend::Candidate;
use crate::hash::{StableKey, bytes_equal};
use crate::policy::{eligible_at, key_at};
use crate::selection::Selection;
use crate::time::{Duration, Instant};

verus! {

/// Probe pool capacity, reuse limit, and maximum age.
#[derive(Clone, Copy, Debug, PartialEq, Eq, Structural, Hash)]
pub struct ProbePoolConfig {
    capacity: usize,
    max_uses: u32,
    max_age: Duration,
}

/// Invalid probe pool configuration.
#[derive(Clone, Copy, Debug, PartialEq, Eq, Structural, Hash)]
pub enum ProbePoolConfigError {
    /// The maximum age is zero.
    ZeroMaxAge,
}

impl ProbePoolConfigError {
    /// Describes the error.
    pub fn message(&self) -> (m: String)
        ensures
            m@ == "probe pool maximum age must be non-zero"@,
    {
        String::from_str("probe pool maximum age must be non-zero")
    }
}

impl ProbePoolConfig {
    #[verifier::type_invariant]
    spec fn config_valid(self) -> bool {
        &&& self.capacity > 0
        &&& self.max_uses > 0
        &&& self.max_age@ > 0
    }

    /// How many observations the pool holds.
    pub closed spec fn spec_capacity(self) -> usize {
        self.capacity
    }

    /// How many decisions one observation may inform.
    pub closed spec fn spec_max_uses(self) -> u32 {
        self.max_uses
    }

    /// How long an observation stays usable.
    pub closed spec fn spec_max_age(self) -> Duration {
        self.max_age
    }

    /// Creates a configuration; the maximum age must be non-zero.
    pub fn new(capacity: usize, max_uses: u32, max_age: Duration) -> (r: Result<Self, ProbePoolConfigError>)
        requires
            capacity > 0,
            max_uses > 0,
        ensures
            max_age@ == 0 ==> r == Err::<Self, ProbePoolConfigError>(ProbePoolConfigError::ZeroMaxAge),
            max_age@ > 0 ==> (r matches Ok(c) && c.spec_capacity() == capacity && c.spec_max_uses()
                == max_uses && c.spec_max_age() == max_age),
    {
        if max_age.is_zero() {
            return Err(ProbePoolConfigError::ZeroMaxAge);
        }
        Ok(ProbePoolConfig { capacity, max_uses, max_age })
    }

    /// Returns the capacity, at least one.
    pub fn capacity(self) -> (n: usize)
        ensures
            n == self.spec_capacity(),
            n > 0,
    {
        proof {
            use_type_invariant(self);
        }
        self.capacity
    }

    /// Returns the reuse limit, at least one.
    pub fn max_uses(self) -> (n: u32)
        ensures
            n == self.spec_max_uses(),
            n > 0,
    {
        proof {
            use_type_invariant(self);
        }
        self.max_uses
    }

    /// Returns the maximum age, never zero.
    pub fn max_age(self) -> (d: Duration)
        ensures
            d == self.spec_max_age(),
            d@ > 0,
    {
        proof {
            use_type_invariant(self);
        }
        self.max_age
    }
}

/// One probe's observation of a backend.
#[derive(Clone, Copy, Debug, PartialEq, Eq, Structural, Hash)]
pub struct ProbeReading {
    requests_in_flight: u64,
    latency: Duration,
}

impl ProbeReading {
    /// The backend's reported concurrent requests.
    pub closed spec fn spec_requests_in_flight(self) -> u64 {
        self.requests_in_flight
    }

    /// The probe's measured latency.
    pub closed spec fn spec_latency(self) -> Duration {
        self.latency
    }

    /// Creates a reading.
    pub fn new(requests_in_flight: u64, latency: Duration) -> (r: Self)
        ensures
            r.spec_requests_in_flight() == requests_in_flight,
            r.spec_latency() == latency,
    {
        ProbeReading { requests_in_flight, latency }
    }

    /// Returns the reported concurrent requests.
    pub fn requests_in_flight(self) -> (n: u64)
        ensures
            n == self.spec_requests_in_flight(),
    {
        self.requests_in_flight
    }

    /// Returns the measured latency.
    pub fn latency(self) -> (d: Duration)
        ensures
            d == self.spec_latency(),
    {
        self.latency
    }
}

/// An observation held by a probe pool.
#[derive(Debug, PartialEq, Eq, Hash)]
pub struct ProbeEntry<Id> {
    id: Id,
    reading: ProbeReading,
    recorded_at: Instant,
    remaining_uses: u32,
}

/// The age of an observation recorded at `recorded_at`, at `now`.
pub open spec fn spec_age(recorded_at: Instant, now: Instant) -> int {
    if now@ >= recorded_at@ {
        now@ - recorded_at@
    } else {
        0
    }
}

impl<Id> ProbeEntry<Id> {
    /// The probed backend.
    pub closed spec fn spec_id(&self) -> Id {
        self.id
    }

    /// The reading.
    pub closed spec fn spec_reading(&self) -> ProbeReading {
        self.reading
    }

    /// When the reading was taken.
    pub closed spec fn spec_recorded_at(&self) -> Instant {
        self.recorded_at
    }

    /// How many more decisions the observation may inform.
    pub closed spec fn spec_remaining_uses(&self) -> u32 {
        self.remaining_uses
    }

    /// An observation with the given parts.
    pub closed spec fn with_parts(id: Id, reading: ProbeReading, recorded_at: Instant, remaining_uses: u32) -> Self {
        ProbeEntry { id, reading, recorded_at, remaining_uses }
    }

    /// Observations are their parts.
    pub proof fn lemma_parts(id: Id, reading: ProbeReading, recorded_at: Instant, remaining_uses: u32)
        ensures
            Self::with_parts(id, reading, recorded_at, remaining_uses).spec_id() == id,
            Self::with_parts(id, reading, recorded_at, remaining_uses).spec_reading() == reading,
            Self::with_parts(id, reading, recorded_at, remaining_uses).spec_recorded_at() == recorded_at,
            Self::with_parts(id, reading, recorded_at, remaining_uses).spec_remaining_uses() == remaining_uses,
    {
    }

    /// Returns the probed backend.
    pub fn id(&self) -> (i: &Id)
        ensures
            *i == self.spec_id(),
    {
        &self.id
    }

    /// Returns the reading.
    pub fn reading(&self) -> (r: ProbeReading)
        ensures
            r == self.spec_reading(),
    {
        self.reading
    }

    /// Returns the reported concurrent requests.
    pub fn requests_in_flight(&self) -> (n: u64)
        ensures
            n == self.spec_reading().spec_requests_in_flight(),
    {
        self.reading.requests_in_flight()
    }

    /// Returns the measured latency.
    pub fn latency(&self) -> (d: Duration)
        ensures
            d == self.spec_reading().spec_latency(),
    {
        self.reading.latency()
    }

    /// Returns how many more decisions the observation may inform.
    pub fn remaining_uses(&self) -> (n: u32)
        ensures
            n == self.spec_remaining_uses(),
    {
        self.remaining_uses
    }

    /// Returns the observation's age at `now`, zero if `now` is earlier.
    pub fn age_at(&self, now: Instant) -> (d: Duration)
        ensures
            d@ == spec_age(self.spec_recorded_at(), now),
    {
        now.saturating_duration_since(self.recorded_at)
    }
}

impl<Id: Clone> Clone for ProbeEntry<Id> {
    fn clone(&self) -> (e: Self)
        ensures
            cloned(self.spec_id(), e.spec_id()),
            e.spec_reading() == self.spec_reading(),
            e.spec_recorded_at() == self.spec_recorded_at(),
            e.spec_remaining_uses() == self.spec_remaining_uses(),
    {
        ProbeEntry {
            id: self.id.clone(),
            reading: self.reading,
            recorded_at: self.recorded_at,
            remaining_uses: self.remaining_uses,
        }
    }
}

/// Why a probe-driven decision failed.
#[derive(Clone, Copy, Debug, PartialEq, Eq, Structural, Hash)]
pub enum ProbeDecisionError {
    /// No unexpired observation was available.
    NoProbes,
    /// The selector rejected every observation.
    NoSelection,
    /// The selector returned an index outside the observations.
    IndexOutOfBounds,
}

impl ProbeDecisionError {
    /// Describes the error.
    pub fn message(&self) -> (m: String)
        ensures
            m@ == (match *self {
                ProbeDecisionError::NoProbes => "no unexpired probe observation is available"@,
                ProbeDecisionError::NoSelection => "the selector rejected every available observation"@,
                ProbeDecisionError::IndexOutOfBounds => "the selector returned an out-of-bounds observation index"@,
            }),
    {
        match self {
            ProbeDecisionError::NoProbes => String::from_str("no unexpired probe observation is available"),
            ProbeDecisionError::NoSelection => String::from_str(
                "the selector rejected every available observation",
            ),
            ProbeDecisionError::IndexOutOfBounds => String::from_str(
                "the selector returned an out-of-bounds observation index",
            ),
        }
    }
}

/// A probe-driven selection and the observation that informed it.
#[derive(Clone, Debug, PartialEq, Eq, Hash)]
pub struct ProbeDecision<Id> {
    selection: Selection,
    entry: ProbeEntry<Id>,
}

impl<Id> ProbeDecision<Id> {
    /// The selected candidate.
    pub closed spec fn spec_selection(&self) -> Selection {
        self.selection
    }

    /// The observation that informed the decision.
    pub closed spec fn spec_entry(&self) -> ProbeEntry<Id> {
        self.entry
    }

    /// Returns the selected candidate.
    pub fn selection(&self) -> (s: Selection)
        ensures
            s == self.spec_selection(),
    {
        self.selection
    }

    /// Returns the observation that informed the decision.
    pub fn entry(&self) -> (e: &ProbeEntry<Id>)
        ensures
            *e == self.spec_entry(),
    {
        &self.entry
    }

    /// Unwraps the observation.
    pub fn into_entry(self) -> (e: ProbeEntry<Id>)
        ensures
            e == self.spec_entry(),
    {
        self.entry
    }
}

/// Whether an observation is younger than `max_age` at `now`.
pub open spec fn is_fresh<Id>(e: ProbeEntry<Id>, now: Instant, max_age: Duration) -> bool {
    spec_age(e.spec_recorded_at(), now) < max_age@
}

/// The observations still usable at `now`, in order.
pub open spec fn live_entries<Id>(es: Seq<ProbeEntry<Id>>, now: Instant, max_age: Duration) -> Seq<ProbeEntry<Id>> {
    es.filter(|e: ProbeEntry<Id>| is_fresh(e, now, max_age))
}

/// Whether `o` is the first observation with the earliest recording time.
pub open spec fn is_oldest<Id>(es: Seq<ProbeEntry<Id>>, o: int) -> bool {
    &&& 0 <= o < es.len()
    &&& forall|j: int| 0 <= j < es.len() ==> es[o].spec_recorded_at()@ <= (#[trigger] es[j]).spec_recorded_at()@
    &&& forall|j: int| 0 <= j < o ==> es[o].spec_recorded_at()@ < (#[trigger] es[j]).spec_recorded_at()@
}

/// The observation a decision leaves behind: one use fewer, or gone when
/// none is left.
pub open spec fn after_use<Id>(es: Seq<ProbeEntry<Id>>, i: int) -> Seq<ProbeEntry<Id>> {
    let e = es[i];
    let left: u32 = if e.spec_remaining_uses() == 0 { 0 } else { (e.spec_remaining_uses() - 1) as u32 };
    if left == 0 {
        es.remove(i)
    } else {
        es.update(i, ProbeEntry::with_parts(e.spec_id(), e.spec_reading(), e.spec_recorded_at(), left))
    }
}

/// Whether a pool holds at most `capacity` observations, each able to
/// inform between one and `max_uses` more decisions.
pub open spec fn within_limits<Id>(config: ProbePoolConfig, es: Seq<ProbeEntry<Id>>) -> bool {
    &&& es.len() <= config.spec_capacity()
    &&& forall|k: int| 0 <= k < es.len() ==> 0 < #[trigger] es[k].spec_remaining_uses() <= config.spec_max_uses()
}

proof fn lemma_fresh_uses<Id>(es: Seq<ProbeEntry<Id>>, now: Instant, max_age: Duration, max_uses: u32)
    requires
        forall|k: int| 0 <= k < es.len() ==> 0 < #[trigger] es[k].spec_remaining_uses() <= max_uses,
    ensures
        live_entries(es, now, max_age).len() <= es.len(),
        forall|k: int|
            0 <= k < live_entries(es, now, max_age).len() ==> 0 < #[trigger] live_entries(es, now, max_age)[k].spec_remaining_uses()
                <= max_uses,
    decreases es.len(),
{
    reveal(Seq::filter);
    if es.len() > 0 {
        let rest = es.drop_last();
        lemma_fresh_uses(rest, now, max_age, max_uses);
    }
}

/// Expiry keeps a pool within its limits: it only drops observations.
pub proof fn lemma_expiry_keeps_limits<Id>(config: ProbePoolConfig, es: Seq<ProbeEntry<Id>>, now: Instant)
    requires
        within_limits(config, es),
    ensures
        within_limits(config, live_entries(es, now, config.spec_max_age())),
{
    lemma_fresh_uses(es, now, config.spec_max_age(), config.spec_max_uses());
}

/// Recording keeps a pool within its limits: a full pool evicts its oldest
/// observation before the new one, with its whole reuse budget, joins.
pub proof fn lemma_record_keeps_limits<Id>(
    config: ProbePoolConfig,
    live: Seq<ProbeEntry<Id>>,
    id: Id,
    reading: ProbeReading,
    now: Instant,
    o: int,
)
    requires
        config.spec_max_uses() > 0,
        within_limits(config, live),
    ensures
        live.len() < config.spec_capacity() ==> within_limits(
            config,
            live.push(ProbeEntry::with_parts(id, reading, now, config.spec_max_uses())),
        ),
        live.len() >= config.spec_capacity() && is_oldest(live, o) ==> within_limits(
            config,
            live.remove(o).push(ProbeEntry::with_parts(id, reading, now, config.spec_max_uses())),
        ),
{
    let new = ProbeEntry::with_parts(id, reading, now, config.spec_max_uses());
    ProbeEntry::lemma_parts(id, reading, now, config.spec_max_uses());
    if live.len() >= config.spec_capacity() && is_oldest(live, o) {
        let after = live.remove(o).push(new);
        assert forall|k: int| 0 <= k < after.len() implies 0 < #[trigger] after[k].spec_remaining_uses()
            <= config.spec_max_uses() by {
            if k < o {
                assert(after[k] == live[k]);
            } else if k < after.len() - 1 {
                assert(after[k] == live[k + 1]);
            }
        }
    }
}

/// A decision keeps a pool within its limits: the chosen observation loses
/// one use and leaves once it has none.
pub proof fn lemma_use_keeps_limits<Id>(config: ProbePoolConfig, live: Seq<ProbeEntry<Id>>, i: int)
    requires
        within_limits(config, live),
        0 <= i < live.len(),
    ensures
        within_limits(config, after_use(live, i)),
{
    let e = live[i];
    let left: u32 = (e.spec_remaining_uses() - 1) as u32;
    ProbeEntry::lemma_parts(e.spec_id(), e.spec_reading(), e.spec_recorded_at(), left);
    if left == 0 {
        let after = live.remove(i);
        assert forall|k: int| 0 <= k < after.len() implies 0 < #[trigger] after[k].spec_remaining_uses()
            <= config.spec_max_uses() by {
            if k < i {
                assert(after[k] == live[k]);
            } else {
                assert(after[k] == live[k + 1]);
            }
        }
    }
}

/// A pool of recent probe observations, driven by explicit times.
///
/// Observations expire after the maximum age and inform at most the
/// configured number of decisions. When full, recording evicts the
/// observation with the oldest recording time, unless the new one is older.
pub struct ProbePoolState<Id> {
    config: ProbePoolConfig,
    entries: Vec<ProbeEntry<Id>>,
}

impl<Id> ProbePoolState<Id> {
    #[verifier::type_invariant]
    spec fn within_capacity(&self) -> bool {
        self.entries@.len() <= self.config.spec_capacity()
    }

    /// The configuration.
    pub closed spec fn spec_config(&self) -> ProbePoolConfig {
        self.config
    }

    /// The held observations, in recording order.
    pub closed spec fn spec_entries(&self) -> Seq<ProbeEntry<Id>> {
        self.entries@
    }

    /// Creates an empty pool.
    pub fn new(config: ProbePoolConfig) -> (p: Self)
        ensures
            p.spec_config() == config,
            p.spec_entries() == Seq::<ProbeEntry<Id>>::empty(),
    {
        ProbePoolState { config, entries: Vec::new() }
    }

    /// Returns the configuration.
    pub fn config(&self) -> (c: ProbePoolConfig)
        ensures
            c == self.spec_config(),
    {
        self.config
    }

    /// Drops the observations that expired by `now`.
    pub fn expire(&mut self, now: Instant)
        ensures
            final(self).spec_config() == old(self).spec_config(),
            final(self).spec_entries() == live_entries(old(self).spec_entries(), now, old(self).spec_config().spec_max_age()),
    {
        proof {
            use_type_invariant(&*self);
        }
        let max_age = self.config.max_age;
        let ghost pred = |e: ProbeEntry<Id>| is_fresh(e, now, max_age);
        let mut kept: Vec<ProbeEntry<Id>> = Vec::new();
        let mut entries: Vec<ProbeEntry<Id>> = Vec::new();
        std::mem::swap(&mut entries, &mut self.entries);
        let ghost all = entries@;
        let n = entries.len();
        let mut k: usize = 0;
        while k < n
            invariant
                n == all.len(),
                k <= n,
                entries@ == all.skip(k as int),
                kept@ == all.take(k as int).filter(pred),
                pred == (|e: ProbeEntry<Id>| is_fresh(e, now, max_age)),
            decreases n - k,
        {
            let entry = entries.remove(0);
            proof {
                assert(entries@ =~= all.skip(k + 1));
                assert(all.take(k + 1).drop_last() =~= all.take(k as int));
                assert(all.take(k + 1).last() == entry);
                reveal(Seq::filter);
            }
            if entry.age_at(now).as_nanos() < max_age.as_nanos() {
                kept.push(entry);
            }
            k = k + 1;
        }
        proof {
            assert(all.take(n as int) =~= all);
            broadcast use vstd::seq_lib::group_filter_ensures;
            assert(kept@.len() <= all.len());
        }
        self.entries = kept;
    }
}

/// What a decision over `live` returns and leaves behind for the selector's
/// `choice`.
pub open spec fn decide_outcome<Id: Clone>(
    live: Seq<ProbeEntry<Id>>,
    choice: Option<usize>,
    after: Seq<ProbeEntry<Id>>,
    r: Result<ProbeEntry<Id>, ProbeDecisionError>,
) -> bool {
    match choice {
        None => r == Err::<ProbeEntry<Id>, ProbeDecisionError>(ProbeDecisionError::NoSelection) && after == live,
        Some(i) => if i >= live.len() {
            r == Err::<ProbeEntry<Id>, ProbeDecisionError>(ProbeDecisionError::IndexOutOfBounds) && after == live
        } else {
            &&& after == after_use(live, i as int)
            &&& r matches Ok(e)
            &&& used_copy(live[i as int], e)
        },
    }
}

/// Whether `e` is a copy of `stored` with one use fewer.
pub open spec fn used_copy<Id: Clone>(stored: ProbeEntry<Id>, e: ProbeEntry<Id>) -> bool {
    &&& cloned(stored.spec_id(), e.spec_id())
    &&& e.spec_reading() == stored.spec_reading()
    &&& e.spec_recorded_at() == stored.spec_recorded_at()
    &&& e.spec_remaining_uses() == if stored.spec_remaining_uses() == 0 {
        0
    } else {
        stored.spec_remaining_uses() - 1
    }
}

impl<Id> ProbePoolState<Id> {
    /// Finds the first observation with the earliest recording time.
    fn oldest_index(&self) -> (r: Option<usize>)
        ensures
            r is None <==> self.spec_entries().len() == 0,
            r matches Some(o) ==> is_oldest(self.spec_entries(), o as int),
    {
        let n = self.entries.len();
        if n == 0 {
            return None;
        }
        let mut best: usize = 0;
        let mut k: usize = 1;
        while k < n
            invariant
                n == self.entries@.len(),
                1 <= k <= n,
                best < k,
                forall|j: int| 0 <= j < k ==> self.entries@[best as int].spec_recorded_at()@ <= (#[trigger] self.entries@[j]).spec_recorded_at()@,
                forall|j: int| 0 <= j < best ==> self.entries@[best as int].spec_recorded_at()@ < (#[trigger] self.entries@[j]).spec_recorded_at()@,
            decreases n - k,
        {
            if self.entries[k].recorded_at.as_nanos() < self.entries[best].recorded_at.as_nanos() {
                best = k;
            }
            k = k + 1;
        }
        Some(best)
    }

    /// Records a reading taken at `now`, after dropping expired ones. A full
    /// pool evicts its oldest observation, or keeps everything if the new
    /// reading is older still.
    pub fn record_at(&mut self, id: Id, reading: ProbeReading, now: Instant)
        ensures
            final(self).spec_config() == old(self).spec_config(),
            final(self).spec_entries().len() <= final(self).spec_config().spec_capacity(),
            ({
                let config = old(self).spec_config();
                let live = live_entries(old(self).spec_entries(), now, config.spec_max_age());
                let new = ProbeEntry::with_parts(id, reading, now, config.spec_max_uses());
                &&& live.len() < config.spec_capacity() ==> final(self).spec_entries() == live.push(new)
                &&& live.len() >= config.spec_capacity() ==> exists|o: int| #[trigger] is_oldest(live, o) && (if live[o].spec_recorded_at()@ > now@ {
                    final(self).spec_entries() == live
                } else {
                    final(self).spec_entries() == live.remove(o).push(new)
                })
            }),
    {
        proof {
            use_type_invariant(&self.config);
        }
        self.expire(now);
        proof {
            use_type_invariant(&*self);
        }
        let evict = if self.entries.len() >= self.config.capacity {
            match self.oldest_index() {
                Some(o) => {
                    assert(is_oldest(self.entries@, o as int));
                    if self.entries[o].recorded_at.as_nanos() > now.as_nanos() {
                        return;
                    }
                    Some(o)
                },
                None => None,
            }
        } else {
            None
        };
        let mut entries: Vec<ProbeEntry<Id>> = Vec::new();
        std::mem::swap(&mut entries, &mut self.entries);
        if let Some(o) = evict {
            entries.remove(o);
        }
        entries.push(ProbeEntry { id, reading, recorded_at: now, remaining_uses: self.config.max_uses });
        self.entries = entries;
        proof {
            use_type_invariant(&*self);
        }
    }

    /// Returns how many observations are usable at `now`, dropping the
    /// expired ones.
    pub fn len_at(&mut self, now: Instant) -> (n: usize)
        ensures
            final(self).spec_config() == old(self).spec_config(),
            final(self).spec_entries() == live_entries(old(self).spec_entries(), now, old(self).spec_config().spec_max_age()),
            n == final(self).spec_entries().len(),
    {
        self.expire(now);
        self.entries.len()
    }

    /// Returns whether no observation is usable at `now`, dropping the
    /// expired ones.
    pub fn is_empty_at(&mut self, now: Instant) -> (b: bool)
        ensures
            final(self).spec_config() == old(self).spec_config(),
            final(self).spec_entries() == live_entries(old(self).spec_entries(), now, old(self).spec_config().spec_max_age()),
            b == (final(self).spec_entries().len() == 0),
    {
        self.len_at(now) == 0
    }

    /// Discards every observation.
    pub fn clear(&mut self)
        ensures
            final(self).spec_config() == old(self).spec_config(),
            final(self).spec_entries() == Seq::<ProbeEntry<Id>>::empty(),
    {
        self.entries = Vec::new();
    }

    /// Uses the observation at `index`: one use fewer, removed when none is
    /// left; returns a copy.
    fn use_entry(&mut self, index: usize) -> (e: ProbeEntry<Id>) where Id: Clone
        requires
            index < old(self).spec_entries().len(),
        ensures
            final(self).spec_config() == old(self).spec_config(),
            final(self).spec_entries() == after_use(old(self).spec_entries(), index as int),
            used_copy(old(self).spec_entries()[index as int], e),
    {
        proof {
            use_type_invariant(&*self);
        }
        let ghost before = self.entries@;
        let mut entries: Vec<ProbeEntry<Id>> = Vec::new();
        std::mem::swap(&mut entries, &mut self.entries);
        let mut entry = entries.remove(index);
        entry.remaining_uses = entry.remaining_uses.saturating_sub(1);
        let decided = entry.clone();
        if entry.remaining_uses > 0 {
            entries.insert(index, entry);
            proof {
                assert(entries@ =~= after_use(before, index as int));
            }
        }
        self.entries = entries;
        decided
    }

    /// Lets `selector` pick among the observations usable at `now`, and uses
    /// the chosen one.
    pub fn decide_at<F: FnOnce(&[ProbeEntry<Id>]) -> Option<usize>>(&mut self, now: Instant, selector: F) -> (r: Result<
        ProbeEntry<Id>,
        ProbeDecisionError,
    >) where Id: Clone
        requires
            forall|s: &[ProbeEntry<Id>]| #[trigger] selector.requires((s,)),
        ensures
            final(self).spec_config() == old(self).spec_config(),
            ({
                let live = live_entries(old(self).spec_entries(), now, old(self).spec_config().spec_max_age());
                &&& live.len() == 0 ==> r == Err::<ProbeEntry<Id>, ProbeDecisionError>(
                    ProbeDecisionError::NoProbes,
                ) && final(self).spec_entries() == live
                &&& live.len() > 0 ==> exists|s: &[ProbeEntry<Id>], choice: Option<usize>|
                    s@ == live && #[trigger] selector.ensures((s,), choice) && decide_outcome(
                        live,
                        choice,
                        final(self).spec_entries(),
                        r,
                    )
            }),
    {
        self.expire(now);
        if self.entries.len() == 0 {
            return Err(ProbeDecisionError::NoProbes);
        }
        let ghost live = self.entries@;
        let slice = self.entries.as_slice();
        let choice = selector(slice);
        proof {
            assert(slice@ == live);
        }
        let index = match choice {
            None => {
                assert(decide_outcome(live, choice, self.entries@, Err(ProbeDecisionError::NoSelection)));
                return Err(ProbeDecisionError::NoSelection);
            },
            Some(i) => i,
        };
        if index >= self.entries.len() {
            assert(decide_outcome(live, choice, self.entries@, Err(ProbeDecisionError::IndexOutOfBounds)));
            return Err(ProbeDecisionError::IndexOutOfBounds);
        }
        let decided = self.use_entry(index);
        assert(decide_outcome(live, choice, self.entries@, Ok(decided)));
        Ok(decided)
    }
}

/// The first eligible candidate among the first `n` whose identity encodes
/// as `key`.
pub open spec fn first_match<C: Candidate>(cs: Seq<C>, key: Seq<u8>, n: int) -> Option<int> where
    C::Id: StableKey,
    decreases n,
{
    if n <= 0 {
        None
    } else {
        match first_match(cs, key, n - 1) {
            Some(j) => Some(j),
            None => if eligible_at(cs, n - 1) && key_at(cs, n - 1) == key {
                Some(n - 1)
            } else {
                None
            },
        }
    }
}

/// The observations among the first `k` live ones that an eligible
/// candidate matches, as (candidate index, observation index).
pub open spec fn offers<C: Candidate, Id: StableKey>(cs: Seq<C>, live: Seq<ProbeEntry<Id>>, k: int) -> Seq<(int, int)> where
    C::Id: StableKey,
    decreases k,
{
    if k <= 0 {
        Seq::empty()
    } else {
        let prev = offers(cs, live, k - 1);
        match first_match(cs, live[k - 1].spec_id().key_bytes(), cs.len() as int) {
            Some(c) => prev.push((c, k - 1)),
            None => prev,
        }
    }
}

/// Whether `s` holds copies of the offered observations, in order.
pub open spec fn offered_copies<Id: Clone>(live: Seq<ProbeEntry<Id>>, os: Seq<(int, int)>, s: Seq<ProbeEntry<Id>>) -> bool {
    &&& s.len() == os.len()
    &&& forall|i: int|
        0 <= i < s.len() ==> cloned(live[os[i].1].spec_id(), (#[trigger] s[i]).spec_id())
            && s[i].spec_reading() == live[os[i].1].spec_reading() && s[i].spec_recorded_at()
            == live[os[i].1].spec_recorded_at() && s[i].spec_remaining_uses()
            == live[os[i].1].spec_remaining_uses()
}

/// What a candidate-restricted decision returns and leaves behind for the
/// selector's `choice` among the offers `os`.
pub open spec fn among_outcome<Id: Clone>(
    live: Seq<ProbeEntry<Id>>,
    os: Seq<(int, int)>,
    choice: Option<usize>,
    after: Seq<ProbeEntry<Id>>,
    r: Result<ProbeDecision<Id>, ProbeDecisionError>,
) -> bool {
    match choice {
        None => r == Err::<ProbeDecision<Id>, ProbeDecisionError>(ProbeDecisionError::NoSelection) && after == live,
        Some(i) => if i >= os.len() {
            r == Err::<ProbeDecision<Id>, ProbeDecisionError>(ProbeDecisionError::IndexOutOfBounds) && after == live
        } else {
            &&& after == after_use(live, os[i as int].1)
            &&& r matches Ok(d)
            &&& d.spec_selection()@ == os[i as int].0
            &&& used_copy(live[os[i as int].1], d.spec_entry())
        },
    }
}

/// Finds the first eligible candidate whose identity encodes as `key`.
fn find_candidate<C: Candidate>(candidates: &[C], key: &[u8]) -> (r: Option<usize>) where C::Id: StableKey
    ensures
        r is None <==> first_match(candidates@, key@, candidates@.len() as int) is None,
        r matches Some(j) ==> first_match(candidates@, key@, candidates@.len() as int) == Some(j as int),
        r matches Some(j) ==> j < candidates@.len(),
{
    let n = candidates.len();
    let mut k: usize = 0;
    while k < n
        invariant
            n == candidates@.len(),
            k <= n,
            first_match(candidates@, key@, k as int) is None,
        decreases n - k,
    {
        if candidates[k].is_eligible() {
            let encoded = candidates[k].id().encode();
            if bytes_equal(encoded.as_slice(), key) {
                proof {
                    lemma_first_match_stable(candidates@, key@, k + 1, n as int);
                }
                return Some(k);
            }
        }
        k = k + 1;
    }
    None
}

proof fn lemma_first_match_stable<C: Candidate>(cs: Seq<C>, key: Seq<u8>, a: int, b: int) where C::Id: StableKey
    requires
        0 <= a <= b,
        first_match(cs, key, a) is Some,
    ensures
        first_match(cs, key, b) == first_match(cs, key, a),
    decreases b - a,
{
    if a < b {
        lemma_first_match_stable(cs, key, a, b - 1);
    }
}

proof fn lemma_first_match_bound<C: Candidate>(cs: Seq<C>, key: Seq<u8>, n: int) where C::Id: StableKey
    ensures
        first_match(cs, key, n) matches Some(j) ==> 0 <= j < n && j < cs.len(),
    decreases n,
{
    if n > 0 {
        lemma_first_match_bound(cs, key, n - 1);
    }
}

proof fn lemma_offers_bound<C: Candidate, Id: StableKey>(cs: Seq<C>, live: Seq<ProbeEntry<Id>>, k: int) where C::Id: StableKey
    requires
        0 <= k <= live.len(),
    ensures
        forall|i: int| 0 <= i < offers(cs, live, k).len() ==> 0 <= (#[trigger] offers(cs, live, k)[i]).1 < k
            && 0 <= offers(cs, live, k)[i].0 < cs.len(),
    decreases k,
{
    if k > 0 {
        lemma_offers_bound(cs, live, k - 1);
        lemma_first_match_bound(cs, live[k - 1].spec_id().key_bytes(), cs.len() as int);
        let prev = offers(cs, live, k - 1);
        let cur = offers(cs, live, k);
        assert forall|i: int| 0 <= i < cur.len() implies 0 <= (#[trigger] cur[i]).1 < k && 0 <= cur[i].0 < cs.len() by {
            if i < prev.len() {
                assert(cur[i] == prev[i]);
            }
        }
    }
}

impl<Id: StableKey + Clone> ProbePoolState<Id> {
    /// Offers the selector copies of the usable observations of eligible
    /// candidates, in observation order, and uses the chosen one; the
    /// selection is the first eligible candidate with that identity.
    #[verifier::rlimit(40)]
    pub fn decide_among_at<C: Candidate, F: FnOnce(&[ProbeEntry<Id>]) -> Option<usize>>(
        &mut self,
        candidates: &[C],
        now: Instant,
        selector: F,
    ) -> (r: Result<ProbeDecision<Id>, ProbeDecisionError>) where C::Id: StableKey
        requires
            forall|s: &[ProbeEntry<Id>]| #[trigger] selector.requires((s,)),
        ensures
            final(self).spec_config() == old(self).spec_config(),
            ({
                let live = live_entries(old(self).spec_entries(), now, old(self).spec_config().spec_max_age());
                let os = offers(candidates@, live, live.len() as int);
                &&& os.len() == 0 ==> r == Err::<ProbeDecision<Id>, ProbeDecisionError>(
                    ProbeDecisionError::NoProbes,
                ) && final(self).spec_entries() == live
                &&& os.len() > 0 ==> exists|s: &[ProbeEntry<Id>], choice: Option<usize>|
                    offered_copies(live, os, s@) && #[trigger] selector.ensures((s,), choice) && among_outcome(
                        live,
                        os,
                        choice,
                        final(self).spec_entries(),
                        r,
                    )
            }),
    {
        self.expire(now);
        let ghost live = self.entries@;
        let ghost cs = candidates@;
        let n = self.entries.len();
        let mut offered: Vec<ProbeEntry<Id>> = Vec::new();
        let mut origins: Vec<(usize, usize)> = Vec::new();
        let mut k: usize = 0;
        while k < n
            invariant
                n == live.len(),
                live == self.entries@,
                cs == candidates@,
                k <= n,
                origins@.len() == offers(cs, live, k as int).len(),
                forall|i: int|
                    0 <= i < origins@.len() ==> (#[trigger] origins@[i]).0 as int == offers(cs, live, k as int)[i].0
                        && origins@[i].1 as int == offers(cs, live, k as int)[i].1,
                offered_copies(live, offers(cs, live, k as int), offered@),
            decreases n - k,
        {
            let key = self.entries[k].id.encode();
            let ghost prev = offers(cs, live, k as int);
            let ghost old_origins = origins@;
            let ghost old_offered = offered@;
            match find_candidate(candidates, key.as_slice()) {
                Some(ci) => {
                    offered.push(self.entries[k].clone());
                    origins.push((ci, k));
                    proof {
                        lemma_first_match_bound(cs, key@, cs.len() as int);
                        assert(key@ == live[k as int].spec_id().key_bytes());
                        assert(first_match(cs, key@, cs.len() as int) == Some(ci as int));
                        assert(offers(cs, live, k + 1) == prev.push((ci as int, k as int)));
                        assert forall|i: int| 0 <= i < origins@.len() implies (#[trigger] origins@[i]).0 as int
                            == offers(cs, live, k + 1)[i].0 && origins@[i].1 as int == offers(cs, live, k + 1)[i].1 by {
                            if i < old_origins.len() {
                                assert(origins@[i] == old_origins[i]);
                            }
                        }
                        assert forall|i: int| 0 <= i < offered@.len() implies cloned(
                            live[offers(cs, live, k + 1)[i].1].spec_id(),
                            (#[trigger] offered@[i]).spec_id(),
                        ) && offered@[i].spec_reading() == live[offers(cs, live, k + 1)[i].1].spec_reading()
                            && offered@[i].spec_recorded_at() == live[offers(cs, live, k + 1)[i].1].spec_recorded_at()
                            && offered@[i].spec_remaining_uses() == live[offers(cs, live, k + 1)[i].1].spec_remaining_uses() by {
                            if i < old_offered.len() {
                                assert(offered@[i] == old_offered[i]);
                            }
                        }
                    }
                },
                None => {
                    proof {
                        assert(offers(cs, live, k + 1) == prev);
                    }
                },
            }
            k = k + 1;
        }
        let ghost os = offers(cs, live, n as int);
        proof {
            lemma_offers_bound(cs, live, n as int);
        }
        if offered.len() == 0 {
            return Err(ProbeDecisionError::NoProbes);
        }
        let slice = offered.as_slice();
        let choice = selector(slice);
        let index = match choice {
            None => {
                assert(among_outcome(live, os, choice, self.entries@, Err(ProbeDecisionError::NoSelection)));
                return Err(ProbeDecisionError::NoSelection);
            },
            Some(i) => i,
        };
        if index >= offered.len() {
            assert(among_outcome(live, os, choice, self.entries@, Err(ProbeDecisionError::IndexOutOfBounds)));
            return Err(ProbeDecisionError::IndexOutOfBounds);
        }
        let (candidate_index, entry_index) = origins[index];
        let entry = self.use_entry(entry_index);
        let decision = ProbeDecision { selection: Selection::new(candidate_index), entry };
        assert(among_outcome(live, os, choice, self.entries@, Ok(decision)));
        Ok(decision)
    }
}

} // verus!
