use std::collections::BTreeSet;

use poise::policy::{Maglev, RingHash, RingHashConfig, Rendezvous};
use poise::{Backend, Candidate, PickError, Policy, Selection, Status, Weight};

type Loaded = Backend<String, (), u64>;

fn loaded(id: usize, weight: u32, load: u64) -> Loaded {
    Backend::from_parts(format!("backend-{id}"), (), load, Weight::new(weight).unwrap(), Status::Ready)
}

fn members(mask: u32, universe: &[Loaded]) -> Vec<Loaded> {
    (0..universe.len())
        .filter(|index| mask & (1 << index) != 0)
        .map(|index| universe[index].clone())
        .collect()
}

#[test]
fn rendezvous_addition_moves_keys_only_to_the_new_backend() {
    const UNIVERSE: usize = 6;
    let universe: Vec<Loaded> = (0..UNIVERSE).map(|index| loaded(index, 1, 0)).collect();
    let mut policy = Rendezvous::new();

    for mask in 1_u32..(1 << UNIVERSE) {
        let before = members(mask, &universe);
        for addition in 0..UNIVERSE {
            if mask & (1 << addition) != 0 {
                continue;
            }
            let after = members(mask | (1 << addition), &universe);
            let newcomer = universe[addition].id();

            for key in 0..400_u64 {
                let old_id = before[policy.pick(&before, &key).unwrap().index()].id();
                let new_id = after[policy.pick(&after, &key).unwrap().index()].id();
                if new_id != newcomer {
                    assert_eq!(old_id, new_id, "key {key} moved between incumbents when {newcomer} joined");
                }
            }
        }
    }
}

#[test]
fn rendezvous_removal_remaps_only_the_departed_keys() {
    const UNIVERSE: usize = 6;
    let universe: Vec<Loaded> = (0..UNIVERSE).map(|index| loaded(index, 1, 0)).collect();
    let mut policy = Rendezvous::new();

    for mask in 1_u32..(1 << UNIVERSE) {
        let before = members(mask, &universe);
        if before.len() < 2 {
            continue;
        }
        for removal in 0..UNIVERSE {
            if mask & (1 << removal) == 0 {
                continue;
            }
            let after = members(mask & !(1 << removal), &universe);
            let departed = universe[removal].id();

            for key in 0..400_u64 {
                let old_id = before[policy.pick(&before, &key).unwrap().index()].id();
                let new_id = after[policy.pick(&after, &key).unwrap().index()].id();
                if old_id != departed {
                    assert_eq!(old_id, new_id, "key {key} moved off {old_id} when unrelated {departed} left");
                }
            }
        }
    }
}

fn permute(items: &mut Vec<usize>, start: usize, out: &mut Vec<Vec<usize>>) {
    if start == items.len() {
        out.push(items.clone());
        return;
    }
    for index in start..items.len() {
        items.swap(start, index);
        permute(items, start + 1, out);
        items.swap(start, index);
    }
}

#[test]
fn rendezvous_selects_the_same_identity_under_every_permutation() {
    const UNIVERSE: usize = 5;
    let universe: Vec<Loaded> = (0..UNIVERSE).map(|index| loaded(index, 1, 0)).collect();
    let mut policy = Rendezvous::new();

    let mut permutation: Vec<usize> = (0..UNIVERSE).collect();
    let mut permutations = Vec::new();
    permute(&mut permutation, 0, &mut permutations);

    for key in 0..200_u64 {
        let canonical = universe[policy.pick(&universe, &key).unwrap().index()].id().clone();
        for order in &permutations {
            let reordered: Vec<Loaded> = order.iter().map(|index| universe[*index].clone()).collect();
            let winner = reordered[policy.pick(&reordered, &key).unwrap().index()].id();
            assert_eq!(&canonical, winner, "key {key} changed winner under reorder");
        }
    }
}

#[test]
fn empty_and_ineligible_outcomes_stay_distinct_at_every_small_size() {
    let mut policy = Rendezvous::new();
    let empty: [Loaded; 0] = [];
    assert_eq!(policy.pick(&empty, &1_u64), Err(PickError::Empty));

    for size in 1..8_usize {
        let candidates: Vec<Loaded> = (0..size)
            .map(|index| Backend::from_parts(format!("backend-{index}"), (), 0_u64, Weight::one(), Status::Draining))
            .collect();
        assert_eq!(
            policy.pick(&candidates, &1_u64),
            Err(PickError::NoEligibleCandidates),
            "size {size} confused an ineligible slice with an empty one"
        );
    }
}

#[test]
fn every_eligible_candidate_is_reachable() {
    for size in 2..8_usize {
        let candidates: Vec<Loaded> = (0..size).map(|index| loaded(index, 1, 0)).collect();
        let mut policy = Rendezvous::new();
        let mut winners = BTreeSet::new();

        for key in 0..20_000_u64 {
            winners.insert(candidates[policy.pick(&candidates, &key).unwrap().index()].id().clone());
        }

        assert_eq!(winners.len(), size, "some candidate never won a key at size {size}");
    }
}

fn generation(step: usize, size: usize) -> Vec<Loaded> {
    let mut members: Vec<Loaded> = (0..size)
        .filter(|index| (index + step) % 7 != 0)
        .map(|index| {
            let weight = u32::try_from(1 + (index + step) % 4).unwrap_or(1);
            let load = u64::try_from((index * 3 + step) % 11).unwrap_or(0);
            let mut member = loaded(index, weight, load);
            if (index + step) % 5 == 0 {
                member = member.with_status(Status::Draining);
            }
            member
        })
        .collect();

    if step % 3 == 0 {
        members.reverse();
    }
    members
}

fn keys() -> Vec<String> {
    (0..250).map(|index| format!("key-{index:04}")).collect()
}

fn age<P>(policy: &mut P, size: usize)
where
    P: Policy<Loaded, str>,
{
    let request_keys = keys();
    for step in 0..12 {
        let members = generation(step, size);
        for key in request_keys.iter().take(20) {
            let _ = policy.pick(&members, key.as_str());
        }
    }
}

fn describe(outcome: Result<Selection, PickError>, members: &[Loaded]) -> Result<String, PickError> {
    outcome.map(|selection| members[selection.index()].id().clone())
}

fn assert_matches_fresh<P, F>(label: &str, mut build: F, size: usize)
where
    F: FnMut() -> P,
    P: Policy<Loaded, str>,
{
    let mut aged = build();
    age(&mut aged, size);

    let members = generation(99, size);
    let request_keys = keys();
    let mut fresh = build();

    for key in &request_keys {
        let expected = describe(fresh.pick(&members, key.as_str()), &members);
        let actual = describe(aged.pick(&members, key.as_str()), &members);
        assert_eq!(actual, expected, "{label}: an aged policy disagreed with a fresh one on {key}");
    }
}

#[test]
fn ring_hash_agrees_with_a_policy_that_never_cached() {
    for size in [4_usize, 17, 64] {
        assert_matches_fresh("ring hash", || RingHash::new(RingHashConfig::default()), size);
    }
}

#[test]
fn maglev_agrees_with_a_policy_that_never_cached() {
    for size in [4_usize, 17, 64] {
        assert_matches_fresh("maglev", Maglev::default, size);
    }
}

#[test]
fn the_churn_used_above_really_does_rebuild() {
    let mut policy = RingHash::new(RingHashConfig::default());
    let request_keys = keys();
    let mut generations = Vec::new();

    for step in 0..12 {
        let members = generation(step, 17);
        let _ = policy.pick(&members, request_keys[0].as_str());
        generations.push(policy.generation());
    }

    let rebuilds = generations.windows(2).filter(|pair| pair[0] != pair[1]).count();
    assert!(rebuilds >= 8, "the churn produced only {rebuilds} rebuilds across 12 generations");
}

const THRESHOLD_SIGMA: f64 = 6.8;
const POWER_SIGMA: f64 = 1.645;
const SAFETY_MARGIN: f64 = 1.02;

fn required_samples(smallest_probability: f64, relative: f64) -> u64 {
    assert!(smallest_probability > 0.0 && relative > 0.0);
    let null = smallest_probability;
    let alternative = null * (1.0 + relative);
    assert!(alternative < 1.0);

    let separation = alternative - null;
    let spread = THRESHOLD_SIGMA * (null * (1.0 - null)).sqrt() + POWER_SIGMA * (alternative * (1.0 - alternative)).sqrt();
    let samples = (spread * spread / (separation * separation) * SAFETY_MARGIN).ceil();
    assert!(samples.is_finite() && samples < 1e15);
    samples as u64
}

#[test]
fn sizing_meets_an_independently_computed_requirement() {
    let references = [
        (1.0 / 3.0, 0.01, 1_429_852_u64),
        (0.25, 0.01, 2_146_569),
        (0.2, 0.01, 2_863_287),
        (0.1, 0.01, 6_446_873),
        (0.25, 0.02, 538_403),
    ];

    for (probability, relative, exact) in references {
        let computed = required_samples(probability, relative);
        assert!(computed >= exact, "p={probability}, r={relative}: sized {computed} against {exact}");
        assert!(computed <= exact * 11 / 10, "p={probability}, r={relative}: sized {computed} above {exact}");
    }
}
