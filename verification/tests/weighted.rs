use std::cell::Cell;
use std::collections::HashMap;

use poise::policy::rendezvous::rendezvous_hash;
use poise::policy::weighted_rendezvous::weighted_score_wins;
use poise::policy::{
    BoundedLoadConfig, BoundedLoadConfigError, BoundedLoadDecision, BoundedLoadRendezvous, Rendezvous,
    WeightedRendezvous, DEFAULT_BALANCE_FACTOR_PERCENT,
};
use poise::{Backend, Candidate, FnvBuildHasher, LoadCount, PickError, Policy, Selection, StableKey, Status, Weight};

fn u53_to_f64(value: u64) -> f64 {
    let high = u32::try_from(value >> 32).unwrap();
    let low = u32::try_from(value & 0xffff_ffff).unwrap();
    f64::from(high) * 4_294_967_296.0 + f64::from(low)
}

fn log_unit_interval(hash: u64) -> f64 {
    let sample = (hash >> 11) + 1;
    let exponent = u64::BITS - 1 - sample.leading_zeros();
    let power_of_two = 1_u64 << exponent;
    let mantissa = u53_to_f64(sample) / u53_to_f64(power_of_two);
    let z = (mantissa - 1.0) / (mantissa + 1.0);
    let z_squared = z * z;
    let mut term = z;
    let mut sum = 0.0;
    for index in 0..13_u32 {
        sum += term / f64::from(2 * index + 1);
        term *= z_squared;
    }
    2.0 * sum - f64::from(53 - exponent) * std::f64::consts::LN_2
}

fn exponential_score(hash: u64, weight: u32) -> f64 {
    -log_unit_interval(hash) / f64::from(weight)
}

fn scores<C: Candidate, K: StableKey + ?Sized>(candidates: &[C], key: &K) -> Vec<u64>
where
    C::Id: StableKey,
{
    candidates
        .iter()
        .map(|candidate| {
            let hash = rendezvous_hash(&FnvBuildHasher, key, candidate.id());
            exponential_score(hash, candidate.weight().get()).to_bits()
        })
        .collect()
}

fn weighted_pick<C: Candidate, K: StableKey + ?Sized>(
    policy: &WeightedRendezvous,
    candidates: &[C],
    key: &K,
) -> Result<Selection, PickError>
where
    C::Id: StableKey,
{
    policy.pick_scored(candidates, key, &scores(candidates, key))
}

fn bounded_decide<C: Candidate, K: StableKey + ?Sized>(
    policy: &BoundedLoadRendezvous,
    candidates: &[C],
    key: &K,
) -> Result<BoundedLoadDecision, PickError>
where
    C::Id: StableKey,
    C::Load: LoadCount,
{
    policy.decide_scored(candidates, key, &scores(candidates, key))
}

fn bounded_pick<C: Candidate, K: StableKey + ?Sized>(
    policy: &BoundedLoadRendezvous,
    candidates: &[C],
    key: &K,
) -> Result<Selection, PickError>
where
    C::Id: StableKey,
    C::Load: LoadCount,
{
    bounded_decide(policy, candidates, key).map(|decision| decision.selection())
}

fn backend(id: &'static str, weight: u32) -> Backend<&'static str> {
    Backend::new(id).with_weight(Weight::new(weight).unwrap())
}

fn loaded(id: &'static str, weight: u32, load: u64) -> Backend<&'static str, (), u64> {
    Backend::new(id).with_weight(Weight::new(weight).unwrap()).with_load(load)
}

fn config(percent: u32) -> BoundedLoadConfig {
    BoundedLoadConfig::new(percent).unwrap()
}

#[test]
fn equal_weights_exactly_match_unweighted_rendezvous() {
    let candidates = [backend("a", 7), backend("b", 7), backend("c", 7)];
    let weighted = WeightedRendezvous::new();
    let mut unweighted = Rendezvous::new();

    for key in 0..100_000_u64 {
        assert_eq!(weighted_pick(&weighted, &candidates, &key), unweighted.pick(&candidates, &key));
    }
}

#[test]
fn transformed_score_ties_use_the_larger_raw_hash() {
    assert!(weighted_score_wins(1.0_f64.to_bits(), 9, 1.0_f64.to_bits(), 7));
    assert!(!weighted_score_wins(1.0_f64.to_bits(), 7, 1.0_f64.to_bits(), 9));
    assert!(weighted_score_wins(0.5_f64.to_bits(), 0, 1.0_f64.to_bits(), 9));
    assert!(weighted_score_wins((-1.0_f64).to_bits(), 0, 0.5_f64.to_bits(), 9));
}

#[test]
fn distribution_tracks_capacity_weights() {
    const KEYS: u64 = 300_000;
    let candidates = [backend("small", 1), backend("medium", 3), backend("large", 6)];
    let mut counts = [0_u64; 3];
    let policy = WeightedRendezvous::new();

    for key in 0..KEYS {
        counts[weighted_pick(&policy, &candidates, &key).unwrap().index()] += 1;
    }

    let expected = [0.1_f64, 0.3, 0.6];
    for (count, expected_share) in counts.into_iter().zip(expected) {
        let actual = f64::from(u32::try_from(count).unwrap()) / f64::from(u32::try_from(KEYS).unwrap());
        assert!(
            (actual - expected_share).abs() < 0.01,
            "expected {expected_share:.3}, observed {actual:.3}"
        );
    }
}

#[test]
fn weighted_rendezvous_removing_a_backend_only_remaps_its_keys() {
    let all = [backend("a", 1), backend("b", 4), backend("c", 2)];
    let without_b = [backend("a", 1), backend("c", 2)];
    let policy = WeightedRendezvous::new();

    for key in 0..50_000_u64 {
        let old_id = all[weighted_pick(&policy, &all, &key).unwrap().index()].id();
        let new_id = without_b[weighted_pick(&policy, &without_b, &key).unwrap().index()].id();
        if old_id != &"b" {
            assert_eq!(old_id, new_id, "key {key} moved unnecessarily");
        }
    }
}

#[test]
fn adding_a_backend_only_moves_keys_to_the_new_backend() {
    let before = [backend("a", 1), backend("b", 4)];
    let after = [backend("a", 1), backend("b", 4), backend("c", 2)];
    let policy = WeightedRendezvous::new();

    for key in 0..50_000_u64 {
        let old_id = before[weighted_pick(&policy, &before, &key).unwrap().index()].id();
        let new_id = after[weighted_pick(&policy, &after, &key).unwrap().index()].id();
        if new_id != &"c" {
            assert_eq!(old_id, new_id, "key {key} moved between existing peers");
        }
    }
}

#[test]
fn changing_one_weight_never_moves_between_unchanged_backends() {
    let before = [backend("a", 1), backend("b", 1), backend("c", 1)];
    let after = [backend("a", 1), backend("b", 9), backend("c", 1)];
    let policy = WeightedRendezvous::new();

    for key in 0..50_000_u64 {
        let old_id = before[weighted_pick(&policy, &before, &key).unwrap().index()].id();
        let new_id = after[weighted_pick(&policy, &after, &key).unwrap().index()].id();
        if old_id != &"b" && new_id != &"b" {
            assert_eq!(old_id, new_id, "key {key} moved between stable peers");
        }
    }
}

#[test]
fn order_does_not_change_identity_assignments() {
    let left = [backend("a", 1), backend("b", 3), backend("c", u32::MAX)];
    let right = [backend("c", u32::MAX), backend("a", 1), backend("b", 3)];
    let policy = WeightedRendezvous::new();

    for key in 0..10_000_u64 {
        let left_id = left[weighted_pick(&policy, &left, &key).unwrap().index()].id();
        let right_id = right[weighted_pick(&policy, &right, &key).unwrap().index()].id();
        assert_eq!(left_id, right_id);
    }
}

#[test]
fn decisions_replay_and_exclude_ineligible_candidates() {
    let candidates = [
        backend("a", u32::MAX).with_status(Status::Unavailable),
        backend("b", 1),
        backend("c", 4),
    ];
    let left = WeightedRendezvous::new();
    let right = WeightedRendezvous::new();
    let mut winners = HashMap::new();

    for key in 0..10_000_u64 {
        let left_selection = weighted_pick(&left, &candidates, &key).unwrap();
        assert_eq!(left_selection, weighted_pick(&right, &candidates, &key).unwrap());
        assert_ne!(left_selection.index(), 0);
        *winners.entry(left_selection.index()).or_insert(0_u64) += 1;
    }
    assert_eq!(winners.len(), 2);
}

#[test]
fn weighted_rendezvous_distinguishes_empty_from_ineligible() {
    let empty: [Backend<&str>; 0] = [];
    let unavailable = [Backend::new("a").with_status(Status::Unavailable)];
    let policy = WeightedRendezvous::new();

    assert_eq!(weighted_pick(&policy, &empty, &0_u64), Err(PickError::Empty));
    assert_eq!(weighted_pick(&policy, &unavailable, &0_u64), Err(PickError::NoEligibleCandidates));
}

#[test]
fn duplicate_identity_behavior_is_explicit_and_allocation_free() {
    let weighted_duplicates = [backend("same", 1), backend("same", 2)];
    let equal_duplicates = [backend("same", 2), backend("same", 2)];
    let policy = WeightedRendezvous::new();

    for key in 0..100_u64 {
        assert_eq!(weighted_pick(&policy, &weighted_duplicates, &key).unwrap().index(), 1);
        assert_eq!(weighted_pick(&policy, &equal_duplicates, &key).unwrap().index(), 0);
    }
}

#[test]
fn configuration_rejects_factors_below_average() {
    assert_eq!(BoundedLoadConfig::new(0), Err(BoundedLoadConfigError::BelowAverage));
    assert_eq!(BoundedLoadConfig::new(99), Err(BoundedLoadConfigError::BelowAverage));
    assert_eq!(config(100).balance_factor_percent(), 100);
    assert_eq!(BoundedLoadConfig::default().balance_factor_percent(), DEFAULT_BALANCE_FACTOR_PERCENT);
}

#[test]
fn idle_selection_exactly_matches_weighted_rendezvous() {
    let candidates = [loaded("a", 1, 0), loaded("b", 3, 0), loaded("c", 6, 0)];
    let bounded = BoundedLoadRendezvous::default();
    let affinity = WeightedRendezvous::new();

    for key in 0..20_000_u64 {
        assert_eq!(bounded_pick(&bounded, &candidates, &key), weighted_pick(&affinity, &candidates, &key));
    }
}

#[test]
fn overloaded_owner_spills_to_the_next_affinity_choice() {
    let ids = ["a", "b", "c"];
    let idle = [loaded("a", 1, 0), loaded("b", 1, 0), loaded("c", 1, 0)];
    let base = WeightedRendezvous::new();
    let key = 42_u64;
    let owner = weighted_pick(&base, &idle, &key).unwrap().index();
    let loaded_set: [Backend<&str, (), u64>; 3] =
        std::array::from_fn(|index| loaded(ids[index], 1, u64::from(index == owner) * 100));
    let alternates: [Backend<&str, (), u64>; 3] = std::array::from_fn(|index| {
        if index == owner {
            loaded(ids[index], 1, 0).with_status(Status::Unavailable)
        } else {
            loaded(ids[index], 1, 0)
        }
    });
    let expected = weighted_pick(&base, &alternates, &key).unwrap();
    let policy = BoundedLoadRendezvous::default();

    let decision = bounded_decide(&policy, &loaded_set, &key).unwrap();
    assert_eq!(decision.affinity().index(), owner);
    assert_eq!(decision.selection(), expected);
    assert!(decision.spilled());
    assert!(u128::from(decision.selected_load()) < decision.selected_capacity());
}

#[test]
fn every_selection_respects_its_prospective_capacity() {
    let policy = BoundedLoadRendezvous::new(config(120));
    for first in 0..8_u64 {
        for second in 0..8_u64 {
            for third in 0..8_u64 {
                let candidates = [loaded("a", 1, first), loaded("b", 2, second), loaded("c", 3, third)];
                let decision = bounded_decide(&policy, &candidates, &17_u64).unwrap();
                assert!(u128::from(decision.selected_load()) < decision.selected_capacity());
            }
        }
    }
}

#[test]
fn tight_bound_respects_weighted_capacity() {
    let candidates = [loaded("small", 1, 0), loaded("large", 3, 9)];
    let policy = BoundedLoadRendezvous::new(config(100));

    for key in 0..100_u64 {
        let decision = bounded_decide(&policy, &candidates, &key).unwrap();
        assert_eq!(decision.selection().index(), 0);
        assert_eq!(decision.selected_capacity(), 3);
    }
}

struct CountedLoad {
    value: u64,
    samples: Cell<usize>,
}

impl LoadCount for CountedLoad {
    fn spec_count(&self) -> u64 {
        self.value
    }

    fn count(&self) -> u64 {
        self.samples.set(self.samples.get() + 1);
        self.value
    }
}

#[test]
fn eligible_loads_are_sampled_exactly_once_and_scratch_is_reused() {
    let candidates = [
        Backend::new("a").with_load(CountedLoad { value: 1, samples: Cell::new(0) }),
        Backend::new("b").with_load(CountedLoad { value: 2, samples: Cell::new(0) }),
    ];
    let policy = BoundedLoadRendezvous::default();

    bounded_decide(&policy, &candidates, &0_u64).unwrap();
    bounded_decide(&policy, &candidates, &1_u64).unwrap();

    assert_eq!(candidates[0].load().samples.get(), 2);
    assert_eq!(candidates[1].load().samples.get(), 2);
}

#[test]
fn load_overflow_is_explicit() {
    let candidates = [loaded("a", 1, u64::MAX), loaded("b", 1, 1)];
    let policy = BoundedLoadRendezvous::default();

    assert_eq!(bounded_pick(&policy, &candidates, &0_u64), Err(PickError::LoadOverflow));
}

#[test]
fn reordering_preserves_the_winning_identity() {
    let left = [loaded("a", 1, 2), loaded("b", 2, 1), loaded("c", 3, 4)];
    let right = [loaded("c", 3, 4), loaded("a", 1, 2), loaded("b", 2, 1)];
    let policy = BoundedLoadRendezvous::default();

    for key in 0..10_000_u64 {
        let left_id = left[bounded_pick(&policy, &left, &key).unwrap().index()].id();
        let right_id = right[bounded_pick(&policy, &right, &key).unwrap().index()].id();
        assert_eq!(left_id, right_id);
    }
}

#[test]
fn bounded_load_distinguishes_empty_from_nonempty_ineligible_slices() {
    let empty: [Backend<&str, (), u64>; 0] = [];
    let unavailable = [loaded("a", 1, 0).with_status(Status::Unavailable)];
    let policy = BoundedLoadRendezvous::default();

    assert_eq!(bounded_pick(&policy, &empty, &0_u64), Err(PickError::Empty));
    assert_eq!(bounded_pick(&policy, &unavailable, &0_u64), Err(PickError::NoEligibleCandidates));
}

#[test]
fn bounded_load_decision_reports_exact_load_capacity_and_scratch() {
    let singleton = [Backend::new("only").with_load(3_u64)];
    let policy = BoundedLoadRendezvous::new(BoundedLoadConfig::new(100).unwrap());
    let decision = bounded_decide(&policy, &singleton, &7_u64).unwrap();
    assert!(!decision.spilled());
    assert_eq!(decision.selected_load(), 3);
    assert_eq!(decision.selected_capacity(), 4);

    let many = [
        Backend::new("first").with_load(3_u64),
        Backend::new("second").with_load(7_u64),
        Backend::new("third").with_load(11_u64),
    ];
    assert!(bounded_decide(&policy, &many, &7_u64).is_ok());
}

type Loaded = Backend<String, (), u64>;

fn numbered(id: usize, weight: u32, load: u64) -> Loaded {
    Backend::from_parts(format!("backend-{id}"), (), load, Weight::new(weight).unwrap(), Status::Ready)
}

fn prospective_capacity(factor: u32, total_load: u128, weight: u32, total_weight: u128) -> u128 {
    (u128::from(factor) * (total_load + 1) * u128::from(weight)).div_ceil(100 * total_weight)
}

fn simulate(factor: u32, weights: &[u32], requests: u64) -> Vec<u64> {
    let policy = BoundedLoadRendezvous::new(config(factor));
    let mut loads = vec![0_u64; weights.len()];
    let total_weight: u128 = weights.iter().map(|weight| u128::from(*weight)).sum();

    for request in 0..requests {
        let candidates: Vec<Loaded> = weights
            .iter()
            .zip(&loads)
            .enumerate()
            .map(|(index, (weight, load))| numbered(index, *weight, *load))
            .collect();

        let total_load: u128 = loads.iter().map(|load| u128::from(*load)).sum();
        let decision = bounded_decide(&policy, &candidates, &request).unwrap();

        let index = decision.selection().index();
        let expected = prospective_capacity(factor, total_load, weights[index], total_weight);
        assert_eq!(decision.selected_capacity(), expected, "request {request}");
        assert!(u128::from(decision.selected_load()) < decision.selected_capacity());

        loads[index] += 1;
    }

    loads
}

#[test]
fn accumulated_load_never_exceeds_the_balance_factor_share() {
    for factor in [100_u32, 120, 150, 300] {
        for weights in [
            vec![1_u32],
            vec![1, 1],
            vec![1, 3],
            vec![1, 1, 1],
            vec![1, 2, 3],
            vec![5, 1, 1, 1],
            vec![1, 2, 3, 4, 5],
        ] {
            let requests = 400;
            let loads = simulate(factor, &weights, requests);

            let total: u128 = loads.iter().map(|load| u128::from(*load)).sum();
            assert_eq!(total, u128::from(requests));

            let total_weight: u128 = weights.iter().map(|weight| u128::from(*weight)).sum();
            for (index, load) in loads.iter().enumerate() {
                let bound = (u128::from(factor) * total * u128::from(weights[index])).div_ceil(100 * total_weight);
                assert!(u128::from(*load) <= bound, "factor {factor} weights {weights:?} index {index}");
            }
        }
    }
}

#[test]
fn the_tightest_factor_allocates_exactly_in_proportion_to_weight() {
    for weights in [vec![1_u32, 1], vec![1, 3], vec![1, 2, 3], vec![5, 1, 1, 1], vec![1, 2, 3, 4, 5]] {
        let requests = 400_u64;
        let loads = simulate(100, &weights, requests);
        let total = u128::from(requests);
        let total_weight: u128 = weights.iter().map(|weight| u128::from(*weight)).sum();

        for (index, load) in loads.iter().enumerate() {
            let weight = u128::from(weights[index]);
            let floor = total * weight / total_weight;
            let ceiling = (total * weight).div_ceil(total_weight);
            let load = u128::from(*load);
            assert!(load == floor || load == ceiling, "weights {weights:?}: candidate {index} carried {load}");
        }
    }
}

#[test]
fn the_tightest_bound_is_still_total() {
    let weights = [1_u32, 2, 3];
    let policy = BoundedLoadRendezvous::new(config(100));

    for first in 0..10_u64 {
        for second in 0..10_u64 {
            for third in 0..10_u64 {
                let candidates = [
                    numbered(0, weights[0], first),
                    numbered(1, weights[1], second),
                    numbered(2, weights[2], third),
                ];
                for key in 0..8_u64 {
                    let decision = bounded_decide(&policy, &candidates, &key).unwrap();
                    assert!(u128::from(decision.selected_load()) < decision.selected_capacity());
                }
            }
        }
    }
}

#[test]
fn a_spill_implies_the_affinity_owner_was_at_its_bound() {
    let weights = [1_u32, 2, 3];
    let policy = BoundedLoadRendezvous::new(config(110));
    let total_weight: u128 = weights.iter().map(|weight| u128::from(*weight)).sum();
    let mut observed_spill = false;

    for first in 0..8_u64 {
        for second in 0..8_u64 {
            for third in 0..8_u64 {
                let loads = [first, second, third];
                let candidates = [
                    numbered(0, weights[0], first),
                    numbered(1, weights[1], second),
                    numbered(2, weights[2], third),
                ];
                let total_load: u128 = loads.iter().map(|load| u128::from(*load)).sum();

                for key in 0..8_u64 {
                    let decision = bounded_decide(&policy, &candidates, &key).unwrap();
                    if !decision.spilled() {
                        continue;
                    }
                    observed_spill = true;

                    let owner = decision.affinity().index();
                    let owner_capacity = prospective_capacity(110, total_load, weights[owner], total_weight);
                    assert!(u128::from(loads[owner]) >= owner_capacity);
                }
            }
        }
    }

    assert!(observed_spill);
}

fn members(mask: u32, universe: &[Loaded]) -> Vec<Loaded> {
    (0..universe.len())
        .filter(|index| mask & (1 << index) != 0)
        .map(|index| universe[index].clone())
        .collect()
}

#[test]
fn weighted_rendezvous_addition_moves_keys_only_to_the_new_backend() {
    const UNIVERSE: usize = 5;
    let weights = [1_u32, 2, 3, 5, 8];
    let universe: Vec<Loaded> = (0..UNIVERSE).map(|index| numbered(index, weights[index], 0)).collect();
    let policy = WeightedRendezvous::new();

    for mask in 1_u32..(1 << UNIVERSE) {
        let before = members(mask, &universe);
        for addition in 0..UNIVERSE {
            if mask & (1 << addition) != 0 {
                continue;
            }
            let after = members(mask | (1 << addition), &universe);
            let newcomer = universe[addition].id();

            for key in 0..400_u64 {
                let old_id = before[weighted_pick(&policy, &before, &key).unwrap().index()].id();
                let new_id = after[weighted_pick(&policy, &after, &key).unwrap().index()].id();
                if new_id != newcomer {
                    assert_eq!(old_id, new_id, "key {key} moved between incumbents when {newcomer} joined");
                }
            }
        }
    }
}

fn churn_generation(step: usize, size: usize) -> Vec<Loaded> {
    let mut members: Vec<Loaded> = (0..size)
        .filter(|index| (index + step) % 7 != 0)
        .map(|index| {
            let weight = u32::try_from(1 + (index + step) % 4).unwrap_or(1);
            let load = u64::try_from((index * 3 + step) % 11).unwrap_or(0);
            let mut member = numbered(index, weight, load);
            if (index + step) % 5 == 0 {
                member = member.with_status(Status::Draining);
            }
            member
        })
        .collect();

    if step % 3 == 0 {
        members.reverse();
    }
    members
}

#[test]
fn bounded_load_agrees_with_a_policy_that_never_reused_scratch() {
    let keys: Vec<String> = (0..250).map(|index| format!("key-{index:04}")).collect();
    for size in [4_usize, 17, 64] {
        let aged = BoundedLoadRendezvous::default();
        for step in 0..12 {
            let members = churn_generation(step, size);
            for key in keys.iter().take(20) {
                let _ = bounded_decide(&aged, &members, key.as_str());
            }
        }
        let members = churn_generation(99, size);
        let fresh = BoundedLoadRendezvous::default();
        for key in &keys {
            let expected = bounded_pick(&fresh, &members, key.as_str()).map(|s| members[s.index()].id().clone());
            let actual = bounded_pick(&aged, &members, key.as_str()).map(|s| members[s.index()].id().clone());
            assert_eq!(actual, expected, "an aged policy disagreed with a fresh one on {key}");
        }
    }
}
