//! The integer rules of group-relative outlier ejection: which ejection
//! limits are valid, and how many hosts one evaluation may eject.

use vstd::prelude::*;

use crate::policy::weighted_rendezvous::{score_order_key, spec_score_key};
use crate::sort::{SortKey, merge_sort, sorted_by};

verus! {

/// Invalid group-relative outlier configuration.
#[derive(Clone, Copy, Debug, PartialEq, Eq, Structural, Hash)]
pub enum OutlierConfigError {
    /// The deviation factor must be finite and non-negative.
    InvalidStandardDeviationFactor,
    /// An ejection percentage cannot exceed 100.
    InvalidMaxEjectionPercent,
}

impl OutlierConfigError {
    /// Describes the error.
    pub fn message(&self) -> (m: String)
        ensures
            m@ == (match *self {
                OutlierConfigError::InvalidStandardDeviationFactor => "outlier standard-deviation factor must be finite and non-negative"@,
                OutlierConfigError::InvalidMaxEjectionPercent => "maximum outlier ejection percentage cannot exceed 100"@,
            }),
    {
        match self {
            OutlierConfigError::InvalidStandardDeviationFactor => String::from_str(
                "outlier standard-deviation factor must be finite and non-negative",
            ),
            OutlierConfigError::InvalidMaxEjectionPercent => String::from_str(
                "maximum outlier ejection percentage cannot exceed 100",
            ),
        }
    }
}

/// Accepts an ejection percentage of at most 100.
pub fn check_max_ejection_percent(max_ejection_percent: u8) -> (r: Result<(), OutlierConfigError>)
    ensures
        max_ejection_percent <= 100 <==> r is Ok,
        r is Err ==> r == Err::<(), OutlierConfigError>(OutlierConfigError::InvalidMaxEjectionPercent),
{
    if max_ejection_percent > 100 {
        Err(OutlierConfigError::InvalidMaxEjectionPercent)
    } else {
        Ok(())
    }
}

/// The indices among the first `n` hosts with at least `minimum_samples`
/// observations, in slice order.
pub open spec fn considered_indices(samples: Seq<usize>, minimum_samples: usize, n: int) -> Seq<usize>
    decreases n,
{
    if n <= 0 {
        Seq::empty()
    } else if samples[n - 1] >= minimum_samples {
        considered_indices(samples, minimum_samples, n - 1).push((n - 1) as usize)
    } else {
        considered_indices(samples, minimum_samples, n - 1)
    }
}

/// The hosts, by index, whose observation counts reach `minimum_samples`:
/// those that join the group baseline.
pub fn considered_hosts(samples: &[usize], minimum_samples: usize) -> (v: Vec<usize>)
    ensures
        v@ == considered_indices(samples@, minimum_samples, samples@.len() as int),
{
    let n = samples.len();
    let mut v: Vec<usize> = Vec::new();
    let mut index: usize = 0;
    while index < n
        invariant
            n == samples@.len(),
            index <= n,
            v@ == considered_indices(samples@, minimum_samples, index as int),
        decreases n - index,
    {
        if samples[index] >= minimum_samples {
            v.push(index);
        }
        index = index + 1;
    }
    v
}

/// The most hosts one evaluation of a group of `hosts` may eject: the
/// percentage of the whole group, rounded down, and never so many that fewer
/// than `minimum_healthy` remain.
pub open spec fn spec_ejection_cap(hosts: int, max_ejection_percent: int, minimum_healthy: int) -> int {
    let percent_cap = hosts * max_ejection_percent / 100;
    let healthy_cap = if hosts > minimum_healthy {
        hosts - minimum_healthy
    } else {
        0
    };
    if percent_cap < healthy_cap {
        percent_cap
    } else {
        healthy_cap
    }
}

proof fn lemma_split_percent(hosts: int, percent: int)
    by (nonlinear_arith)
    requires
        hosts >= 0,
        0 <= percent <= 100,
    ensures
        (hosts / 100) * percent + ((hosts % 100) * percent) / 100 == hosts * percent / 100,
{
    let q = hosts / 100;
    let r = hosts % 100;
    assert(hosts == 100 * q + r);
    assert(hosts * percent == 100 * (q * percent) + r * percent);
}

/// Computes [`spec_ejection_cap`] without overflow.
pub fn ejection_cap(hosts: usize, max_ejection_percent: u8, minimum_healthy: usize) -> (cap: usize)
    requires
        max_ejection_percent <= 100,
    ensures
        cap == spec_ejection_cap(hosts as int, max_ejection_percent as int, minimum_healthy as int),
{
    let percent = max_ejection_percent as usize;
    proof {
        lemma_split_percent(hosts as int, percent as int);
        assert((hosts / 100) * percent <= hosts) by (nonlinear_arith)
            requires
                percent <= 100,
        ;
        assert(hosts * percent / 100 <= hosts) by (nonlinear_arith)
            requires
                percent <= 100,
        ;
        assert((hosts % 100) * percent <= 100 * 100) by (nonlinear_arith)
            requires
                percent <= 100,
                hosts % 100 < 100,
        ;
    }
    let percent_cap = (hosts / 100) * percent + ((hosts % 100) * percent) / 100;
    let healthy_cap = hosts.saturating_sub(minimum_healthy);
    if percent_cap < healthy_cap {
        percent_cap
    } else {
        healthy_cap
    }
}

/// A host below the ejection threshold: its slice index and the IEEE 754
/// bits of its success rate.
#[derive(Clone, Copy, Debug, PartialEq, Eq, Structural, Hash)]
pub struct EjectionCandidate {
    pub index: usize,
    pub rate_bits: u64,
}

impl SortKey for EjectionCandidate {
    /// Worse success rates first, in the total order of `f64` values, then
    /// lower slice indices.
    open spec fn key_le(self, other: Self) -> bool {
        ||| spec_score_key(self.rate_bits) < spec_score_key(other.rate_bits)
        ||| spec_score_key(self.rate_bits) == spec_score_key(other.rate_bits) && self.index <= other.index
    }

    proof fn lemma_key_total(a: Self, b: Self) {
    }

    proof fn lemma_key_trans(a: Self, b: Self, c: Self) {
    }

    fn le(&self, other: &Self) -> (r: bool) {
        let mine = score_order_key(self.rate_bits);
        let theirs = score_order_key(other.rate_bits);
        mine < theirs || (mine == theirs && self.index <= other.index)
    }
}

/// Whether `ejected` lists the slice indices of the first `cap` hosts of
/// `below`, worst success rate first and ties in slice-index order.
pub open spec fn is_ejection_order(below: Seq<EjectionCandidate>, cap: int, ejected: Seq<usize>) -> bool {
    exists|sorted: Seq<EjectionCandidate>|
        #[trigger] sorted_by(sorted) && sorted.to_multiset() == below.to_multiset() && ejected == sorted.take(
            if cap < below.len() {
                cap
            } else {
                below.len() as int
            },
        ).map_values(|e: EjectionCandidate| e.index)
}

/// Orders the hosts below the ejection threshold from the worst success
/// rate to the best, ties by slice index, and keeps the first `cap`.
pub fn order_ejections(below: &[EjectionCandidate], cap: usize) -> (ejected: Vec<usize>)
    ensures
        is_ejection_order(below@, cap as int, ejected@),
{
    let mut all: Vec<EjectionCandidate> = Vec::new();
    let mut k: usize = 0;
    while k < below.len()
        invariant
            k <= below@.len(),
            all@ == below@.take(k as int),
        decreases below@.len() - k,
    {
        all.push(below[k]);
        k = k + 1;
        proof {
            assert(all@ =~= below@.take(k as int));
        }
    }
    proof {
        assert(all@ =~= below@);
    }
    let sorted = merge_sort(&all);
    let keep = if cap < sorted.len() {
        cap
    } else {
        sorted.len()
    };
    proof {
        vstd::seq_lib::to_multiset_len(sorted@);
        vstd::seq_lib::to_multiset_len(below@);
    }
    let mut ejected: Vec<usize> = Vec::new();
    let mut i: usize = 0;
    while i < keep
        invariant
            keep <= sorted@.len(),
            i <= keep,
            ejected@ == sorted@.take(i as int).map_values(|e: EjectionCandidate| e.index),
        decreases keep - i,
    {
        ejected.push(sorted[i].index);
        i = i + 1;
        proof {
            assert(ejected@ =~= sorted@.take(i as int).map_values(|e: EjectionCandidate| e.index));
        }
    }
    proof {
        assert(sorted_by(sorted@) && sorted@.to_multiset() == below@.to_multiset() && ejected@ == sorted@.take(
            if cap < below@.len() {
                cap as int
            } else {
                below@.len() as int
            },
        ).map_values(|e: EjectionCandidate| e.index));
    }
    ejected
}

} // verus!
