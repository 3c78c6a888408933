use vstd::prelude::*;

use crate::backend::Candidate;
use crate::error::PickError;
use crate::selection::Selection;

use super::{Policy, any_eligible, eligible_at, no_candidate_error, ring_offset, ring_pos, selected_indices};

verus! {

/// Whether `i` is the first eligible slot met when scanning a ring of
/// candidates from `start`.
pub open spec fn first_eligible_from<C: Candidate>(cs: Seq<C>, start: int, i: int) -> bool {
    &&& 0 <= i < cs.len()
    &&& cs[i].spec_eligible()
    &&& forall|k: int|
        0 <= k < ring_offset(start, i, cs.len() as int) ==> !(#[trigger] cs[ring_pos(
            start,
            k,
            cs.len() as int,
        )]).spec_eligible()
}

/// The slots of `cs` that accept new work.
pub open spec fn eligible_slots<C: Candidate>(cs: Seq<C>) -> Set<int> {
    Set::new(|i: int| eligible_at(cs, i))
}

/// Where the scan of pick `j` of a run starts: the first cursor, then just
/// past the previous pick, as [`RoundRobin::pick_next`] leaves it.
pub open spec fn scan_start(cursor: int, picks: Seq<int>, j: int, n: int) -> int {
    if j == 0 {
        cursor % n
    } else {
        (picks[j - 1] + 1) % n
    }
}

/// Whether `picks` is a run of round-robin picks over `cs` whose first scan
/// starts at `cursor`.
pub open spec fn is_pick_run<C: Candidate>(cs: Seq<C>, cursor: int, picks: Seq<int>) -> bool {
    forall|j: int|
        0 <= j < picks.len() ==> first_eligible_from(
            cs,
            scan_start(cursor, picks, j, cs.len() as int),
            #[trigger] picks[j],
        )
}

proof fn lemma_slots_finite<C: Candidate>(cs: Seq<C>)
    ensures
        eligible_slots(cs).finite(),
        eligible_slots(cs).len() <= cs.len(),
{
    let all = vstd::set_lib::set_int_range(0, cs.len() as int);
    vstd::set_lib::lemma_int_range(0, cs.len() as int);
    vstd::set_lib::lemma_len_subset(eligible_slots(cs), all);
}

proof fn lemma_ring_roundtrip(s: int, i: int, t: int, n: int)
    requires
        0 <= s < n,
        0 <= i < n,
        0 <= t < n,
    ensures
        0 <= ring_offset(s, i, n) < n,
        ring_pos(s, ring_offset(s, i, n), n) == i,
        0 <= ring_pos(s, t, n) < n,
        ring_offset(s, ring_pos(s, t, n), n) == t,
{
}

proof fn lemma_next_start(p: int, n: int)
    requires
        0 <= p < n,
    ensures
        (p + 1) % n == (if p + 1 < n { p + 1 } else { 0 }),
{
    if p + 1 < n {
        vstd::arithmetic::div_mod::lemma_small_mod((p + 1) as nat, n as nat);
    } else {
        vstd::arithmetic::div_mod::lemma_mod_self_0(n);
    }
}

/// The picks of a run up to `j` lie at strictly growing distances from the
/// first scan start, and every eligible slot nearer than pick `j` was picked
/// before it.
proof fn lemma_run_prefix<C: Candidate>(cs: Seq<C>, cursor: int, picks: Seq<int>, j: int)
    requires
        cs.len() > 0,
        cursor >= 0,
        is_pick_run(cs, cursor, picks),
        0 <= j < picks.len(),
        picks.len() <= eligible_slots(cs).len(),
    ensures
        0 <= picks[j] < cs.len(),
        forall|a: int, b: int|
            0 <= a < b <= j ==> ring_offset(cursor % (cs.len() as int), #[trigger] picks[a], cs.len() as int)
                < ring_offset(cursor % (cs.len() as int), #[trigger] picks[b], cs.len() as int),
        forall|i: int|
            eligible_at(cs, i) && #[trigger] ring_offset(cursor % (cs.len() as int), i, cs.len() as int)
                < ring_offset(cursor % (cs.len() as int), picks[j], cs.len() as int) ==> picks.subrange(0, j).contains(i),
    decreases j,
{
    let n = cs.len() as int;
    vstd::arithmetic::div_mod::lemma_mod_bound(cursor, n);
    let s0 = cursor % n;
    assert(first_eligible_from(cs, scan_start(cursor, picks, j, n), picks[j]));
    if j == 0 {
        assert forall|i: int|
            eligible_at(cs, i) && #[trigger] ring_offset(s0, i, n) < ring_offset(s0, picks[j], n) implies picks.subrange(
            0,
            j,
        ).contains(i) by {
            lemma_ring_roundtrip(s0, i, 0, n);
            assert(!cs[ring_pos(s0, ring_offset(s0, i, n), n)].spec_eligible());
        }
    } else {
        lemma_run_prefix(cs, cursor, picks, j - 1);
        let p = picks[j - 1];
        let o = ring_offset(s0, p, n);
        lemma_ring_roundtrip(s0, p, 0, n);
        lemma_next_start(p, n);
        let s1 = (p + 1) % n;
        let q = picks[j];
        let d = ring_offset(s1, q, n);
        // Some eligible slot lies beyond the previous pick.
        let done = picks.subrange(0, j).to_set();
        lemma_slots_finite(cs);
        picks.subrange(0, j).lemma_cardinality_of_set();
        assert(!eligible_slots(cs).subset_of(done)) by {
            if eligible_slots(cs).subset_of(done) {
                vstd::set_lib::lemma_len_subset(eligible_slots(cs), done);
            }
        }
        let i = choose|i: int| eligible_slots(cs).contains(i) && !done.contains(i);
        assert(eligible_at(cs, i));
        assert(!picks.subrange(0, j).contains(i)) by {
            if picks.subrange(0, j).contains(i) {
                let k = choose|k: int| 0 <= k < j && #[trigger] picks.subrange(0, j)[k] == i;
                assert(done.contains(picks.subrange(0, j)[k]));
            }
        }
        lemma_ring_roundtrip(s0, i, 0, n);
        assert(ring_offset(s0, i, n) > o) by {
            if ring_offset(s0, i, n) < o {
                assert(picks.subrange(0, j - 1).contains(i));
                let k = choose|k: int| 0 <= k < j - 1 && #[trigger] picks.subrange(0, j - 1)[k] == i;
                assert(picks.subrange(0, j)[k] == i);
            } else if ring_offset(s0, i, n) == o {
                assert(picks.subrange(0, j)[j - 1] == i);
            }
        }
        // Scanning from just past the previous pick meets the slots beyond it
        // in the order of their distance from the first start.
        let t_i = ring_offset(s0, i, n);
        assert(ring_pos(s1, t_i - o - 1, n) == i);
        assert(ring_offset(s1, i, n) == t_i - o - 1);
        lemma_ring_roundtrip(s1, q, 0, n);
        assert(d <= t_i - o - 1) by {
            if d > t_i - o - 1 {
                assert(!cs[ring_pos(s1, t_i - o - 1, n)].spec_eligible());
            }
        }
        assert(ring_pos(s0, o + 1 + d, n) == q);
        lemma_ring_roundtrip(s0, q, o + 1 + d, n);
        assert(ring_offset(s0, q, n) == o + 1 + d);
        assert forall|a: int, b: int|
            0 <= a < b <= j implies ring_offset(s0, #[trigger] picks[a], n) < ring_offset(s0, #[trigger] picks[b], n) by {
            if b < j {
            } else if a < j - 1 {
                assert(ring_offset(s0, picks[a], n) < ring_offset(s0, picks[j - 1], n));
            }
        }
        assert forall|x: int|
            eligible_at(cs, x) && #[trigger] ring_offset(s0, x, n) < ring_offset(s0, q, n) implies picks.subrange(
            0,
            j,
        ).contains(x) by {
            lemma_ring_roundtrip(s0, x, 0, n);
            let tx = ring_offset(s0, x, n);
            if tx < o {
                assert(picks.subrange(0, j - 1).contains(x));
                let k = choose|k: int| 0 <= k < j - 1 && #[trigger] picks.subrange(0, j - 1)[k] == x;
                assert(picks.subrange(0, j)[k] == x);
            } else if tx == o {
                assert(picks.subrange(0, j)[j - 1] == x);
            } else {
                assert(ring_pos(s1, tx - o - 1, n) == x);
                assert(!cs[ring_pos(s1, tx - o - 1, n)].spec_eligible());
            }
        }
    }
}

/// One full cycle of round-robin picks, as many as there are eligible
/// candidates, each scan starting just past the previous pick, selects every
/// eligible candidate exactly once.
pub proof fn lemma_cycle_visits_each_eligible_once<C: Candidate>(cs: Seq<C>, cursor: int, picks: Seq<int>)
    requires
        cs.len() > 0,
        cursor >= 0,
        is_pick_run(cs, cursor, picks),
        picks.len() == eligible_slots(cs).len(),
    ensures
        picks.no_duplicates(),
        picks.to_set() == eligible_slots(cs),
{
    let n = cs.len() as int;
    let s0 = cursor % n;
    if picks.len() > 0 {
        lemma_run_prefix(cs, cursor, picks, picks.len() - 1);
    }
    assert forall|a: int, b: int| 0 <= a < picks.len() && 0 <= b < picks.len() && a != b implies picks[a]
        != picks[b] by {
        if a < b {
            assert(ring_offset(s0, picks[a], n) < ring_offset(s0, picks[b], n));
        } else {
            assert(ring_offset(s0, picks[b], n) < ring_offset(s0, picks[a], n));
        }
    }
    assert(picks.no_duplicates());
    picks.unique_seq_to_set();
    lemma_slots_finite(cs);
    assert forall|x: int| picks.to_set().contains(x) implies eligible_slots(cs).contains(x) by {
        let k = choose|k: int| 0 <= k < picks.len() && #[trigger] picks[k] == x;
        assert(first_eligible_from(cs, scan_start(cursor, picks, k, n), picks[k]));
    }
    vstd::set_lib::lemma_subset_equality(picks.to_set(), eligible_slots(cs));
}

/// Successive round-robin picks over the same candidates, as many as there
/// are eligible candidates, each made by the policy the previous one left,
/// all succeed and select every eligible candidate exactly once.
pub proof fn lemma_successive_picks_visit_each_eligible_once<C: Candidate>(
    candidates: &[C],
    policies: Seq<RoundRobin>,
    results: Seq<Result<Selection, PickError>>,
)
    requires
        0 < candidates@.len() <= usize::MAX,
        results.len() == eligible_slots(candidates@).len(),
        policies.len() == results.len() + 1,
        forall|t: int|
            0 <= t < results.len() ==> #[trigger] policies[t].pick_outcome(
                &policies[t + 1],
                candidates,
                &(),
                results[t],
            ),
    ensures
        forall|t: int| 0 <= t < results.len() ==> #[trigger] results[t] is Ok,
        selected_indices(results).no_duplicates(),
        selected_indices(results).to_set() == eligible_slots(candidates@),
{
    let cs = candidates@;
    let n = cs.len() as int;
    let picks = selected_indices(results);
    lemma_slots_finite(cs);
    if results.len() > 0 {
        assert(any_eligible(cs)) by {
            if !any_eligible(cs) {
                assert(eligible_slots(cs) =~= Set::<int>::empty());
            }
        }
    }
    assert forall|t: int| 0 <= t < results.len() implies #[trigger] results[t] is Ok by {
        assert(policies[t].pick_outcome(&policies[t + 1], candidates, &(), results[t]));
    }
    assert forall|j: int| 0 <= j < picks.len() implies first_eligible_from(
        cs,
        scan_start(policies[0]@ as int, picks, j, n),
        #[trigger] picks[j],
    ) by {
        assert(policies[j].pick_outcome(&policies[j + 1], candidates, &(), results[j]));
        assert(results[j] is Ok);
        if j > 0 {
            let k = j - 1;
            assert(policies[k].pick_outcome(&policies[k + 1], candidates, &(), results[k]));
            assert(results[k] is Ok);
            assert(k + 1 == j);
            assert(picks[k] < n);
        }
    }
    lemma_cycle_visits_each_eligible_once(cs, policies[0]@ as int, picks);
}

/// Cycles through eligible candidates in slice order.
///
/// Selection takes `O(n)` time in the worst case and allocates no memory.
/// Reordering the candidate slice also changes the cycle.
#[derive(Clone, Debug)]
pub struct RoundRobin {
    cursor: usize,
}

impl View for RoundRobin {
    type V = usize;

    closed spec fn view(&self) -> usize {
        self.cursor
    }
}

impl Default for RoundRobin {
    fn default() -> (p: Self)
        ensures
            p@ == 0,
    {
        RoundRobin { cursor: 0 }
    }
}

impl RoundRobin {
    /// Creates a policy whose first scan starts at index zero.
    pub fn new() -> (p: Self)
        ensures
            p@ == 0,
    {
        RoundRobin { cursor: 0 }
    }

    /// Creates a policy whose first scan starts at `cursor` modulo the slice
    /// length.
    pub fn with_cursor(cursor: usize) -> (p: Self)
        ensures
            p@ == cursor,
    {
        RoundRobin { cursor }
    }

    /// Selects the first eligible candidate at or after the cursor, wrapping
    /// around, and moves the cursor just past it.
    pub fn pick_next<C: Candidate>(&mut self, candidates: &[C]) -> (r: Result<Selection, PickError>)
        ensures
            candidates@.len() == 0 ==> r == Err::<Selection, PickError>(PickError::Empty),
            candidates@.len() > 0 && !any_eligible(candidates@) ==> r == Err::<Selection, PickError>(
                PickError::NoEligibleCandidates,
            ),
            r is Err ==> final(self)@ == old(self)@,
            any_eligible(candidates@) ==> r is Ok,
            r matches Ok(s) ==> {
                &&& first_eligible_from(
                    candidates@,
                    (old(self)@ as int) % (candidates@.len() as int),
                    s@ as int,
                )
                &&& final(self)@ == (if s@ == usize::MAX { 0 } else { s@ + 1 })
            },
    {
        let n = candidates.len();
        if n == 0 {
            return Err(PickError::Empty);
        }
        let start = self.cursor % n;
        let mut offset: usize = 0;
        while offset < n
            invariant
                n == candidates@.len(),
                start < n,
                offset <= n,
                self@ == old(self)@,
                start as int == (old(self)@ as int) % (n as int),
                forall|k: int|
                    0 <= k < offset ==> !(#[trigger] candidates@[ring_pos(
                        start as int,
                        k,
                        n as int,
                    )]).spec_eligible(),
            decreases n - offset,
        {
            let index = if start < n - offset {
                start + offset
            } else {
                start - (n - offset)
            };
            assert(index == ring_pos(start as int, offset as int, n as int));
            if candidates[index].is_eligible() {
                assert(super::eligible_at(candidates@, index as int));
                assert(ring_offset(start as int, index as int, n as int) == offset);
                self.cursor = index.wrapping_add(1);
                return Ok(Selection::new(index));
            }
            offset = offset + 1;
        }
        proof {
            assert forall|i: int| 0 <= i < n implies !#[trigger] candidates@[i].spec_eligible() by {
                let k = ring_offset(start as int, i, n as int);
                assert(ring_pos(start as int, k, n as int) == i);
            }
        }
        Err(no_candidate_error(n))
    }
}

impl<C: Candidate> Policy<C, ()> for RoundRobin {
    open spec fn pick_outcome(
        &self,
        after: &Self,
        candidates: &[C],
        context: &(),
        r: Result<Selection, PickError>,
    ) -> bool {
        &&& candidates@.len() == 0 ==> r == Err::<Selection, PickError>(PickError::Empty)
        &&& candidates@.len() > 0 && !any_eligible(candidates@) ==> r == Err::<Selection, PickError>(
            PickError::NoEligibleCandidates,
        )
        &&& r is Err ==> after@ == self@
        &&& any_eligible(candidates@) ==> r is Ok
        &&& r matches Ok(s) ==> {
            &&& first_eligible_from(
                candidates@,
                (self@ as int) % (candidates@.len() as int),
                s@ as int,
            )
            &&& after@ == (if s@ == usize::MAX { 0 } else { s@ + 1 })
        }
    }

    fn pick(&mut self, candidates: &[C], context: &()) -> (r: Result<Selection, PickError>) {
        self.pick_next(candidates)
    }
}

} // verus!
