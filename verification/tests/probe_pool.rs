use poise::probe::{ProbeDecisionError, ProbeEntry, ProbePoolConfig, ProbePoolState, ProbeReading};
use poise::time::{Duration, Instant};
use poise::{Backend, Status};

fn config(capacity: usize, max_uses: u32, max_age: Duration) -> ProbePoolConfig {
    ProbePoolConfig::new(capacity, max_uses, max_age).unwrap()
}

fn reading(requests_in_flight: u64, latency_millis: u64) -> ProbeReading {
    ProbeReading::new(requests_in_flight, Duration::from_millis(latency_millis))
}

fn base() -> Instant {
    Instant::from_nanos(1_000_000_000_000)
}

fn after(at: Instant, millis: u64) -> Instant {
    Instant::from_nanos(at.as_nanos() + u128::from(millis) * 1_000_000)
}

fn lowest_latency<Id>(entries: &[ProbeEntry<Id>]) -> Option<usize> {
    entries.iter().enumerate().min_by_key(|(_, entry)| entry.latency().as_nanos()).map(|(index, _)| index)
}

#[test]
fn recording_never_exceeds_capacity_and_evicts_the_oldest() {
    let mut pool = ProbePoolState::new(config(2, 1, Duration::from_secs(60)));
    let base = base();

    pool.record_at("a", reading(1, 10), base);
    pool.record_at("b", reading(2, 20), after(base, 1));
    pool.record_at("c", reading(3, 30), after(base, 2));

    let now = after(base, 3);
    assert_eq!(pool.len_at(now), 2);

    let survivors = [pool.decide_at(now, |_| Some(0)).unwrap(), pool.decide_at(now, |_| Some(0)).unwrap()];
    let mut ids: Vec<_> = survivors.iter().map(|entry| *entry.id()).collect();
    ids.sort_unstable();
    assert_eq!(ids, ["b", "c"]);
}

#[test]
fn an_entry_informs_exactly_its_configured_number_of_decisions() {
    let mut pool = ProbePoolState::new(config(4, 3, Duration::from_secs(60)));
    let now = base();
    pool.record_at("a", reading(1, 10), now);

    for expected_remaining in [2, 1, 0] {
        let decided = pool.decide_at(now, |_| Some(0)).unwrap();
        assert_eq!(decided.remaining_uses(), expected_remaining);
    }

    assert_eq!(pool.decide_at(now, |_| Some(0)).unwrap_err(), ProbeDecisionError::NoProbes);
    assert!(pool.is_empty_at(now));
}

#[test]
fn an_expired_entry_never_informs_a_decision() {
    let max_age = Duration::from_millis(100);
    let mut pool = ProbePoolState::new(config(4, 8, max_age));
    let base = base();
    pool.record_at("a", reading(1, 10), base);

    assert_eq!(pool.len_at(after(base, 99)), 1);
    assert_eq!(pool.len_at(after(base, 100)), 0);
    assert_eq!(pool.decide_at(after(base, 100), |_| Some(0)).unwrap_err(), ProbeDecisionError::NoProbes);
}

#[test]
fn expiry_precedes_selection_so_a_selector_only_sees_live_entries() {
    let max_age = Duration::from_millis(100);
    let mut pool = ProbePoolState::new(config(4, 1, max_age));
    let base = base();
    pool.record_at("stale", reading(0, 1), base);
    pool.record_at("fresh", reading(9, 50), after(base, 80));

    let decided = pool.decide_at(after(base, 120), lowest_latency).unwrap();

    assert_eq!(decided.id(), &"fresh");
}

#[test]
fn selector_outcomes_stay_distinguishable() {
    let mut pool = ProbePoolState::new(config(4, 1, Duration::from_secs(60)));
    let now = base();

    assert_eq!(pool.decide_at(now, |_| Some(0)).unwrap_err(), ProbeDecisionError::NoProbes);

    pool.record_at("a", reading(1, 10), now);
    assert_eq!(pool.decide_at(now, |_| None).unwrap_err(), ProbeDecisionError::NoSelection);
    assert_eq!(
        pool.decide_at(now, |entries| Some(entries.len())).unwrap_err(),
        ProbeDecisionError::IndexOutOfBounds
    );
    assert_eq!(pool.len_at(now), 1, "a rejected decision spends no budget");
    assert_eq!(pool.decide_at(now, |_| Some(0)).unwrap().id(), &"a");
}

#[test]
fn clearing_discards_every_observation() {
    let mut pool = ProbePoolState::new(config(4, 2, Duration::from_secs(60)));
    let now = base();
    pool.record_at("a", reading(1, 10), now);
    pool.record_at("b", reading(2, 20), now);
    assert!(!pool.is_empty_at(now), "a populated pool reports non-empty");

    pool.clear();

    assert!(pool.is_empty_at(now));
}

#[test]
fn an_entry_reports_its_age() {
    let mut pool = ProbePoolState::new(config(4, 1, Duration::from_secs(60)));
    let base = base();
    let recorded_at = after(base, 5);
    pool.record_at("a", reading(1, 10), recorded_at);

    let decided = pool.decide_at(after(recorded_at, 25), |_| Some(0)).unwrap();

    assert_eq!(decided.age_at(after(recorded_at, 25)), Duration::from_millis(25));
    assert_eq!(
        decided.age_at(base),
        Duration::zero(),
        "an instant before the observation saturates rather than underflowing"
    );
}

#[test]
fn eviction_uses_observation_time_rather_than_insertion_order() {
    let mut pool = ProbePoolState::new(config(2, 1, Duration::from_secs(60)));
    let base = base();

    pool.record_at("newest", reading(0, 1), after(base, 20));
    pool.record_at("oldest", reading(0, 2), after(base, 5));
    pool.record_at("newer", reading(0, 3), after(base, 30));

    let now = after(base, 40);
    let mut retained =
        vec![*pool.decide_at(now, |_| Some(0)).unwrap().id(), *pool.decide_at(now, |_| Some(0)).unwrap().id()];
    retained.sort_unstable();

    assert_eq!(retained, ["newer", "newest"]);
}

#[test]
fn a_full_pool_keeps_the_fresher_of_two_observations() {
    let mut pool = ProbePoolState::new(config(1, 1, Duration::from_secs(60)));
    let base = base();
    pool.record_at("fresher", reading(0, 1), after(base, 30));

    pool.record_at("staler", reading(0, 2), after(base, 5));

    let now = after(base, 40);
    assert_eq!(pool.len_at(now), 1);
    assert_eq!(pool.decide_at(now, |_| Some(0)).unwrap().id(), &"fresher");
}

#[test]
fn a_full_pool_admits_an_observation_sharing_the_oldest_instant() {
    let mut pool = ProbePoolState::new(config(1, 1, Duration::from_secs(60)));
    let base = base();
    pool.record_at("first", reading(0, 1), base);

    pool.record_at("second", reading(0, 2), base);

    assert_eq!(pool.decide_at(after(base, 1), |_| Some(0)).unwrap().id(), &"second");
}

#[test]
fn a_selector_ranks_the_whole_live_slice() {
    let mut pool = ProbePoolState::new(config(4, 1, Duration::from_secs(60)));
    let now = base();
    pool.record_at("slow", reading(0, 90), now);
    pool.record_at("fast", reading(0, 5), now);
    pool.record_at("medium", reading(0, 40), now);

    let decided = pool.decide_at(now, lowest_latency).unwrap();

    assert_eq!(decided.id(), &"fast", "the winner is not at the head, so the slice must be ranked");
}

#[test]
fn readings_are_reported_unchanged() {
    let mut pool = ProbePoolState::new(config(4, 1, Duration::from_secs(60)));
    let now = base();
    let observed = reading(42, 7);
    pool.record_at("a", observed, now);

    let decided = pool.decide_at(now, |_| Some(0)).unwrap();

    assert_eq!(decided.reading(), observed);
    assert_eq!(decided.requests_in_flight(), 42);
    assert_eq!(decided.latency(), Duration::from_millis(7));
}

fn ready(id: &str) -> Backend<String> {
    Backend::new(id.to_owned())
}

fn draining(id: &str) -> Backend<String> {
    Backend::new(id.to_owned()).with_status(Status::Draining)
}

#[test]
fn selecting_among_candidates_never_offers_a_departed_replica() {
    let mut pool = ProbePoolState::new(config(8, 1, Duration::from_secs(60)));
    let now = base();
    pool.record_at("present".to_owned(), reading(9, 90), now);
    pool.record_at("departed".to_owned(), reading(0, 1), now);

    let candidates = [ready("present")];
    let seen = std::cell::RefCell::new(Vec::new());
    let decision = pool
        .decide_among_at(&candidates, now, |offered| {
            seen.borrow_mut().extend(offered.iter().map(|entry| entry.id().clone()));
            Some(0)
        })
        .unwrap();

    assert_eq!(
        seen.into_inner(),
        vec!["present".to_owned()],
        "an observation for an absent candidate reached the ranking function"
    );
    assert_eq!(candidates[decision.selection().index()].id(), "present");
}

#[test]
fn selecting_among_candidates_never_offers_an_ineligible_one() {
    let mut pool = ProbePoolState::new(config(8, 1, Duration::from_secs(60)));
    let now = base();
    pool.record_at("draining".to_owned(), reading(0, 1), now);

    let candidates = [draining("draining")];

    assert_eq!(pool.decide_among_at(&candidates, now, |_| Some(0)).unwrap_err(), ProbeDecisionError::NoProbes);
}

#[test]
fn a_decision_indexes_the_candidate_slice_not_the_pool() {
    let mut pool = ProbePoolState::new(config(8, 1, Duration::from_secs(60)));
    let now = base();
    pool.record_at("second".to_owned(), reading(0, 1), now);

    let candidates = [ready("first"), ready("second")];
    let decision = pool.decide_among_at(&candidates, now, |_| Some(0)).unwrap();

    assert_eq!(decision.selection().index(), 1);
    assert_eq!(candidates[decision.selection().index()].id(), "second");
}

#[test]
fn selecting_among_candidates_charges_exactly_one_use() {
    let mut pool = ProbePoolState::new(config(8, 2, Duration::from_secs(60)));
    let now = base();
    pool.record_at("shared".to_owned(), reading(0, 1), now);
    let candidates = [ready("shared")];

    for expected_remaining in [1, 0] {
        let decision = pool.decide_among_at(&candidates, now, |_| Some(0)).unwrap();
        assert_eq!(decision.entry().remaining_uses(), expected_remaining);
    }

    assert_eq!(pool.decide_among_at(&candidates, now, |_| Some(0)).unwrap_err(), ProbeDecisionError::NoProbes);
}

#[test]
fn a_rejected_selection_among_candidates_spends_no_budget() {
    let mut pool = ProbePoolState::new(config(8, 1, Duration::from_secs(60)));
    let now = base();
    pool.record_at("shared".to_owned(), reading(0, 1), now);
    let candidates = [ready("shared")];

    assert_eq!(pool.decide_among_at(&candidates, now, |_| None).unwrap_err(), ProbeDecisionError::NoSelection);
    assert_eq!(
        pool.decide_among_at(&candidates, now, |offered| Some(offered.len())).unwrap_err(),
        ProbeDecisionError::IndexOutOfBounds
    );
    assert_eq!(pool.len_at(now), 1, "a rejected decision spends no budget");
}

#[test]
fn an_empty_candidate_slice_reports_no_probes() {
    let mut pool = ProbePoolState::new(config(8, 1, Duration::from_secs(60)));
    let now = base();
    pool.record_at("orphan".to_owned(), reading(0, 1), now);
    let candidates: [Backend<String>; 0] = [];

    assert_eq!(pool.decide_among_at(&candidates, now, |_| Some(0)).unwrap_err(), ProbeDecisionError::NoProbes);
}
