//! Maglev consistent hashing over a prime-sized lookup table.

use vstd::prelude::*;

use crate::backend::Candidate;
use crate::error::PickError;
use crate::hash::{
    FNV_OFFSET_BASIS, FnvBuildHasher, StableKey, bytes_equal, fnv1a, lemma_fnv_concat, mix64,
    spec_mix64,
};
use crate::selection::Selection;
use crate::sort::{SortKey, merge_sort, sorted_by};

use super::ring_hash::{
    RingMember, candidate_members, eligible_members, lemma_eligible_members, lemma_member_facts,
    lemma_members_len_mono, lemma_members_prefix, lemma_unique_members, member_keys_distinct,
};
use super::{Policy, eligible_at, eligible_keys_unique, find_duplicate_eligible, key_at};

use vstd::arithmetic::div_mod::{
    lemma_fundamental_div_mod, lemma_fundamental_div_mod_converse, lemma_mod_multiples_basic,
};

verus! {

broadcast use vstd::seq_lib::group_to_multiset_ensures;

/// Default number of entries in a [`Maglev`] lookup table.
pub const DEFAULT_TABLE_SIZE: usize = 65_537;

/// Largest lookup table accepted by [`MaglevConfig`].
pub const MAX_TABLE_SIZE: usize = 5_000_011;

/// `n` is a prime number.
pub open spec fn spec_is_prime(n: int) -> bool {
    &&& n >= 2
    &&& forall|d: int| 2 <= d < n ==> #[trigger] (n % d) != 0
}

/// A prime does not divide the product of two positive numbers below it.
pub proof fn lemma_prime_product(p: int, a: int, b: int)
    requires
        spec_is_prime(p),
        0 < a < p,
        0 < b < p,
    ensures
        (a * b) % p != 0,
    decreases a,
{
    if a == 1 {
        assert(a * b == b);
        lemma_fundamental_div_mod_converse(b, p, 0, b);
    } else {
        let r = p % a;
        assert(p % a != 0);
        lemma_fundamental_div_mod(p, a);
        let q = p / a;
        assert(0 < r < a);
        lemma_prime_product(p, r, b);
        if (a * b) % p == 0 {
            lemma_fundamental_div_mod(a * b, p);
            let c = (a * b) / p;
            assert(r * b == p * (b - q * c)) by (nonlinear_arith)
                requires
                    p == a * q + r,
                    a * b == p * c,
            ;
            lemma_mod_multiples_basic(b - q * c, p);
            assert(p * (b - q * c) == (b - q * c) * p) by (nonlinear_arith);
        }
    }
}

/// Odd numbers have only odd divisors.
proof fn lemma_odd_divisor(n: int, d: int)
    requires
        n > 0,
        d > 0,
        n % 2 == 1,
        n % d == 0,
    ensures
        d % 2 == 1,
{
    lemma_fundamental_div_mod(n, d);
    let e = n / d;
    if d % 2 == 0 {
        lemma_fundamental_div_mod(d, 2);
        let h = d / 2;
        assert(n == 2 * (h * e)) by (nonlinear_arith)
            requires
                n == d * e,
                d == 2 * h,
        ;
        lemma_fundamental_div_mod_converse(n, 2, h * e, 0);
    }
}

/// An odd number with no odd divisor from three up to a bound whose square
/// exceeds it is prime.
proof fn lemma_prime_by_trial(n: int, bound: int)
    requires
        n >= 3,
        n % 2 == 1,
        bound >= 3,
        bound * bound > n,
        forall|e: int| 3 <= e < bound && e % 2 == 1 ==> #[trigger] (n % e) != 0,
    ensures
        spec_is_prime(n),
{
    assert forall|d: int| 2 <= d < n implies #[trigger] (n % d) != 0 by {
        if n % d == 0 {
            lemma_fundamental_div_mod(n, d);
            let e = n / d;
            assert(n == d * e);
            assert(e >= 2) by (nonlinear_arith)
                requires
                    n == d * e,
                    2 <= d < n,
            ;
            lemma_fundamental_div_mod_converse(n, e, d, 0);
            let a = if d <= e {
                d
            } else {
                e
            };
            assert(n % a == 0);
            assert(a * a <= n) by (nonlinear_arith)
                requires
                    n == d * e,
                    a == d || a == e,
                    a <= d,
                    a <= e,
                    a >= 2,
            ;
            assert(a < bound) by (nonlinear_arith)
                requires
                    a * a <= n,
                    bound * bound > n,
                    a >= 2,
                    bound >= 3,
            ;
            lemma_odd_divisor(n, a);
            assert(n % a != 0);
        }
    }
}

/// The default table size is prime.
proof fn lemma_default_prime()
    ensures
        spec_is_prime(DEFAULT_TABLE_SIZE as int),
{
    assert(forall|d: u32| 3 <= d && d < 257 ==> #[trigger] (65537u32 % d) != 0u32) by (bit_vector);
    assert forall|e: int| 3 <= e < 257 && e % 2 == 1 implies #[trigger] (65537int % e) != 0 by {
        let d = e as u32;
        assert(65537u32 % d != 0u32);
    }
    lemma_prime_by_trial(65537, 257);
}

/// Reports whether `value` is prime, by trial division with odd divisors.
pub fn is_prime(value: usize) -> (r: bool)
    ensures
        r == spec_is_prime(value as int),
{
    if value < 2 {
        return false;
    }
    if value % 2 == 0 {
        if value != 2 {
            assert((value as int) % 2 == 0);
        }
        return value == 2;
    }
    if value == 3 {
        assert forall|d: int| 2 <= d < 3 implies #[trigger] (3int % d) != 0 by {}
        return true;
    }
    let mut divisor: usize = 3;
    while divisor <= value / divisor
        invariant
            value >= 5,
            value % 2 == 1,
            divisor >= 3,
            divisor % 2 == 1,
            divisor <= value,
            forall|e: int| 3 <= e < divisor && e % 2 == 1 ==> #[trigger] ((value as int) % e) != 0,
        decreases value - divisor,
    {
        assert(divisor * divisor <= value) by (nonlinear_arith)
            requires
                divisor <= value / divisor,
                divisor > 0,
        ;
        if value % divisor == 0 {
            assert(divisor < value) by (nonlinear_arith)
                requires
                    divisor * divisor <= value,
                    divisor >= 3,
            ;
            assert(!spec_is_prime(value as int)) by {
                assert((value as int) % (divisor as int) == 0);
            }
            return false;
        }
        assert(divisor + 2 <= value) by (nonlinear_arith)
            requires
                divisor * divisor <= value,
                divisor >= 3,
        ;
        let ghost previous = divisor;
        divisor = divisor + 2;
        assert forall|e: int| 3 <= e < divisor && e % 2 == 1 implies #[trigger] ((value as int) % e)
            != 0 by {
            if e >= previous {
                assert(e == previous);
            }
        }
    }
    assert(divisor * divisor > value) by (nonlinear_arith)
        requires
            divisor > value / divisor,
            divisor > 0,
    ;
    proof {
        lemma_prime_by_trial(value as int, divisor as int);
    }
    true
}

/// The table slot a permutation visits at `ordinal`.
pub open spec fn perm_slot(offset: int, skip: int, ordinal: int, m: int) -> int {
    (offset + ordinal * skip) % m
}

/// Over a prime table, a permutation visits distinct slots at distinct
/// ordinals below the table size.
proof fn lemma_perm_injective(offset: int, skip: int, m: int, i: int, j: int)
    requires
        spec_is_prime(m),
        0 < skip < m,
        0 <= i < j < m,
    ensures
        perm_slot(offset, skip, i, m) != perm_slot(offset, skip, j, m),
{
    let x = offset + j * skip;
    let y = offset + i * skip;
    if x % m == y % m {
        lemma_fundamental_div_mod(x, m);
        lemma_fundamental_div_mod(y, m);
        let qx = x / m;
        let qy = y / m;
        assert((j - i) * skip == (qx - qy) * m) by (nonlinear_arith)
            requires
                x == m * qx + x % m,
                y == m * qy + y % m,
                x % m == y % m,
                x == offset + j * skip,
                y == offset + i * skip,
        ;
        lemma_mod_multiples_basic(qx - qy, m);
        lemma_prime_product(m, j - i, skip);
    }
}

/// Over a prime table, the first `m` ordinals of a permutation visit every
/// slot.
pub proof fn lemma_perm_covers(offset: int, skip: int, m: int, e: int)
    requires
        spec_is_prime(m),
        0 < skip < m,
        0 <= e < m,
    ensures
        exists|t: int| 0 <= t < m && #[trigger] perm_slot(offset, skip, t, m) == e,
{
    let f = |t: int| perm_slot(offset, skip, t, m);
    let w = vstd::set_lib::set_int_range(0, m);
    vstd::set_lib::lemma_int_range(0, m);
    assert(vstd::relations::injective_on(f, w)) by {
        assert forall|a: int, b: int| w.contains(a) && w.contains(b) && #[trigger] f(a) == #[trigger] f(
            b,
        ) implies a == b by {
            if a < b {
                lemma_perm_injective(offset, skip, m, a, b);
            } else if b < a {
                lemma_perm_injective(offset, skip, m, b, a);
            }
        }
    }
    let image = w.map(f);
    vstd::set_lib::lemma_map_size(w, image, f);
    assert(image.subset_of(w)) by {
        assert forall|y: int| image.contains(y) implies w.contains(y) by {
            let t = choose|t: int| w.contains(t) && y == f(t);
            assert(0 <= f(t) < m);
        }
    }
    vstd::set_lib::lemma_subset_equality(image, w);
    assert(image.contains(e));
    let t = choose|t: int| w.contains(t) && e == f(t);
    assert(perm_slot(offset, skip, t, m) == e);
}

/// Marks a table slot that no member owns yet.
pub const EMPTY_SLOT: usize = usize::MAX;

/// One member's walk over the table.
#[derive(Clone, Copy, Debug, PartialEq, Eq, Structural)]
pub struct Permutation {
    pub offset: usize,
    pub skip: usize,
    pub index: usize,
    pub order_high: u64,
    pub order_low: u64,
}

impl SortKey for Permutation {
    open spec fn key_le(self, other: Self) -> bool {
        ||| self.order_high < other.order_high
        ||| self.order_high == other.order_high && self.order_low < other.order_low
        ||| self.order_high == other.order_high && self.order_low == other.order_low && self.index
            <= other.index
    }

    proof fn lemma_key_total(a: Self, b: Self) {
    }

    proof fn lemma_key_trans(a: Self, b: Self, c: Self) {
    }

    fn le(&self, other: &Self) -> (r: bool) {
        if self.order_high != other.order_high {
            self.order_high < other.order_high
        } else if self.order_low != other.order_low {
            self.order_low < other.order_low
        } else {
            self.index <= other.index
        }
    }
}

/// Whether the permutation is a valid walk over a table of `m` slots.
pub open spec fn perm_valid(p: Permutation, m: int) -> bool {
    &&& p.offset < m
    &&& 0 < p.skip < m
    &&& p.index != EMPTY_SLOT
}

/// Whether every slot the permutation visits before `k` is taken.
pub open spec fn filled_prefix(table: Seq<usize>, p: Permutation, k: int, m: int) -> bool {
    forall|t: int|
        0 <= t < k ==> table[#[trigger] perm_slot(p.offset as int, p.skip as int, t, m)]
            != EMPTY_SLOT
}

/// Whether some permutation carries slice index `index`.
pub open spec fn perm_owns(perms: Seq<Permutation>, index: usize) -> bool {
    exists|i: int| 0 <= i < perms.len() && #[trigger] perms[i].index == index
}

/// How many table slots the permutation at turn position `i` receives when
/// `n` permutations take turns filling `m` slots.
pub open spec fn fair_share(m: int, n: int, i: int) -> int {
    m / n + if i < m % n {
        1int
    } else {
        0int
    }
}

fn permutation_slot(p: Permutation, ordinal: usize, m: usize) -> (slot: usize)
    requires
        p.offset < m,
        p.skip < m,
        ordinal < m,
        m <= MAX_TABLE_SIZE,
    ensures
        slot == perm_slot(p.offset as int, p.skip as int, ordinal as int, m as int),
{
    assert(ordinal as int * p.skip as int <= MAX_TABLE_SIZE as int * MAX_TABLE_SIZE as int)
        by (nonlinear_arith)
        requires
            ordinal < m,
            p.skip < m,
            m <= MAX_TABLE_SIZE,
    ;
    let walked = p.offset as u64 + ordinal as u64 * p.skip as u64;
    (walked % m as u64) as usize
}

proof fn lemma_fill_keeps(table: Seq<usize>, slot: int, v: usize, p: Permutation, k: int, m: int)
    requires
        filled_prefix(table, p, k, m),
        v != EMPTY_SLOT,
        0 <= slot < table.len(),
        table.len() == m,
        m > 0,
    ensures
        filled_prefix(table.update(slot, v), p, k, m),
{
    assert forall|t: int| 0 <= t < k implies table.update(slot, v)[#[trigger] perm_slot(
        p.offset as int,
        p.skip as int,
        t,
        m,
    )] != EMPTY_SLOT by {
        let s = perm_slot(p.offset as int, p.skip as int, t, m);
        if s != slot {
            assert(table[s] != EMPTY_SLOT);
        }
    }
}

/// The first ordinal, from `t` on, whose slot in `p`'s walk is free, or `m`
/// when none below `m` is.
pub open spec fn first_free(table: Seq<usize>, p: Permutation, t: int, m: int) -> int
    decreases m - t,
{
    if t >= m {
        m
    } else if table[perm_slot(p.offset as int, p.skip as int, t, m)] == EMPTY_SLOT {
        t
    } else {
        first_free(table, p, t + 1, m)
    }
}

proof fn lemma_first_free(table: Seq<usize>, p: Permutation, from: int, ordinal: int, m: int)
    requires
        from <= ordinal < m,
        table[perm_slot(p.offset as int, p.skip as int, ordinal, m)] == EMPTY_SLOT,
        forall|u: int| from <= u < ordinal ==> table[#[trigger] perm_slot(p.offset as int, p.skip as int, u, m)] != EMPTY_SLOT,
    ensures
        first_free(table, p, from, m) == ordinal,
    decreases ordinal - from,
{
    if from < ordinal {
        assert(table[perm_slot(p.offset as int, p.skip as int, from, m)] != EMPTY_SLOT);
        lemma_first_free(table, p, from + 1, ordinal, m);
    }
}

/// The table and the walk position of every permutation after `steps`
/// turns: the permutations take turns in order, each claiming the next free
/// slot of its walk.
pub open spec fn fill_after(perms: Seq<Permutation>, m: int, steps: nat) -> (Seq<usize>, Seq<int>)
    decreases steps,
{
    if steps == 0 {
        (Seq::new(m as nat, |s: int| EMPTY_SLOT), Seq::new(perms.len(), |i: int| 0int))
    } else {
        let prev = fill_after(perms, m, (steps - 1) as nat);
        let i = (steps - 1) as int % (perms.len() as int);
        let p = perms[i];
        let t = first_free(prev.0, p, prev.1[i], m);
        (prev.0.update(perm_slot(p.offset as int, p.skip as int, t, m), p.index), prev.1.update(i, t + 1))
    }
}

/// The Maglev table of `perms` over `m` slots: the table once all `m` slots
/// are claimed.
pub open spec fn maglev_fill(perms: Seq<Permutation>, m: int) -> Seq<usize> {
    fill_after(perms, m, m as nat).0
}

proof fn lemma_fill_step(
    perms: Seq<Permutation>,
    m: int,
    steps: nat,
    table: Seq<usize>,
    next: Seq<int>,
    pi: int,
    ordinal: int,
)
    requires
        perms.len() > 0,
        fill_after(perms, m, steps) == (table, next),
        pi == steps as int % (perms.len() as int),
        0 <= next[pi] <= ordinal < m,
        table[perm_slot(perms[pi].offset as int, perms[pi].skip as int, ordinal, m)] == EMPTY_SLOT,
        filled_prefix(table, perms[pi], ordinal, m),
    ensures
        fill_after(perms, m, steps + 1) == (
            table.update(perm_slot(perms[pi].offset as int, perms[pi].skip as int, ordinal, m), perms[pi].index),
            next.update(pi, ordinal + 1),
        ),
{
    let p = perms[pi];
    lemma_first_free(table, p, next[pi], ordinal, m);
    assert(((steps + 1) - 1) as nat == steps);
}

/// Fills a table of `m` slots for permutations that fit in it: an empty
/// table without permutations, [`PickError::StateCapacityExceeded`] with
/// more permutations than slots, and otherwise the table the permutations
/// fill by taking turns, each claiming the next free slot of its walk.
pub fn populate_table(m: usize, perms: &Vec<Permutation>) -> (r: Result<Vec<usize>, PickError>)
    requires
        spec_is_prime(m as int),
        m <= MAX_TABLE_SIZE,
        forall|i: int| 0 <= i < perms@.len() ==> perm_valid(#[trigger] perms@[i], m as int),
        forall|i: int, j: int|
            0 <= i < perms@.len() && 0 <= j < perms@.len() && i != j ==> (#[trigger] perms@[i]).index
                != (#[trigger] perms@[j]).index,
    ensures
        perms@.len() == 0 ==> (r matches Ok(table) && table@.len() == 0),
        perms@.len() > m ==> r == Err::<Vec<usize>, PickError>(PickError::StateCapacityExceeded),
        0 < perms@.len() <= m ==> (r matches Ok(table) && table@ == maglev_fill(perms@, m as int)),
        r matches Ok(table) ==> perms@.len() > 0 ==> {
            &&& table@.len() == m
            &&& forall|s: int| 0 <= s < m ==> perm_owns(perms@, #[trigger] table@[s])
            &&& forall|i: int|
                0 <= i < perms@.len() ==> table@.to_multiset().count(#[trigger] perms@[i].index)
                    == fair_share(m as int, perms@.len() as int, i)
        },
{
    if perms.len() == 0 {
        return Ok(Vec::new());
    }
    if perms.len() > m {
        return Err(PickError::StateCapacityExceeded);
    }
    Ok(fill_table(m, perms))
}

/// Fills a table of `m` slots by letting the permutations take turns, each
/// claiming the next free slot of its walk.
#[verifier::rlimit(60)]
fn fill_table(m: usize, perms: &Vec<Permutation>) -> (table: Vec<usize>)
    requires
        spec_is_prime(m as int),
        m <= MAX_TABLE_SIZE,
        0 < perms@.len() <= m,
        forall|i: int| 0 <= i < perms@.len() ==> perm_valid(#[trigger] perms@[i], m as int),
        forall|i: int, j: int|
            0 <= i < perms@.len() && 0 <= j < perms@.len() && i != j ==> (#[trigger] perms@[i]).index
                != (#[trigger] perms@[j]).index,
    ensures
        table@.len() == m,
        forall|s: int| 0 <= s < m ==> perm_owns(perms@, #[trigger] table@[s]),
        forall|i: int|
            0 <= i < perms@.len() ==> table@.to_multiset().count(#[trigger] perms@[i].index)
                == fair_share(m as int, perms@.len() as int, i),
        table@ == maglev_fill(perms@, m as int),
{
    let n = perms.len();
    let mut next: Vec<usize> = Vec::new();
    while next.len() < n
        invariant
            next@.len() <= n,
            forall|i: int| 0 <= i < next@.len() ==> #[trigger] next@[i] == 0,
        decreases n - next@.len(),
    {
        next.push(0);
    }
    let mut table: Vec<usize> = Vec::new();
    while table.len() < m
        invariant
            table@.len() <= m,
            forall|s: int| 0 <= s < table@.len() ==> #[trigger] table@[s] == EMPTY_SLOT,
        decreases m - table@.len(),
    {
        table.push(EMPTY_SLOT);
    }
    proof {
        assert(table@ =~= Seq::new(m as nat, |s: int| EMPTY_SLOT));
        lemma_uniform_count(table@, EMPTY_SLOT);
        assert forall|i: int| 0 <= i < n implies table@.to_multiset().count(#[trigger] perms@[i].index)
            == 0 by {
            lemma_absent_count(table@, perms@[i].index);
        }
        assert(next@.map_values(|x: usize| x as int) =~= Seq::new(n as nat, |i: int| 0int));
        assert(fill_after(perms@, m as int, 0) == (table@, next@.map_values(|x: usize| x as int)));
    }
    let mut populated: usize = 0;
    let mut pi: usize = 0;
    let ghost mut rounds: int = 0;
    while populated < m
        invariant
            n == perms@.len(),
            0 < n <= m,
            spec_is_prime(m as int),
            m <= MAX_TABLE_SIZE,
            forall|i: int| 0 <= i < n ==> perm_valid(#[trigger] perms@[i], m as int),
            forall|i: int, j: int|
                0 <= i < n && 0 <= j < n && i != j ==> (#[trigger] perms@[i]).index
                    != (#[trigger] perms@[j]).index,
            table@.len() == m,
            next@.len() == n,
            pi < n,
            rounds >= 0,
            populated == rounds * n + pi,
            populated <= m,
            forall|i: int| 0 <= i < n ==> #[trigger] next@[i] <= m,
            forall|i: int| 0 <= i < n ==> filled_prefix(table@, #[trigger] perms@[i], next@[i] as int, m as int),
            forall|s: int|
                0 <= s < m ==> #[trigger] table@[s] == EMPTY_SLOT || perm_owns(perms@, table@[s]),
            table@.to_multiset().count(EMPTY_SLOT) == m - populated,
            fill_after(perms@, m as int, populated as nat) == (table@, next@.map_values(|x: usize| x as int)),
            forall|i: int|
                0 <= i < n ==> table@.to_multiset().count(#[trigger] perms@[i].index) == rounds + if i
                    < pi {
                    1int
                } else {
                    0int
                },
        decreases m - populated,
    {
        let p = perms[pi];
        let mut ordinal = next[pi];
        let ghost target: int;
        proof {
            assert(table@.to_multiset().count(EMPTY_SLOT) > 0);
            assert(table@.contains(EMPTY_SLOT));
            let e = choose|e: int| 0 <= e < table@.len() && table@[e] == EMPTY_SLOT;
            assert(perm_valid(perms@[pi as int], m as int));
            lemma_perm_covers(p.offset as int, p.skip as int, m as int, e);
            target = choose|t: int| 0 <= t < m && #[trigger] perm_slot(p.offset as int, p.skip as int, t, m as int) == e;
            assert(filled_prefix(table@, perms@[pi as int], next@[pi as int] as int, m as int));
            if target < ordinal {
                assert(table@[perm_slot(p.offset as int, p.skip as int, target, m as int)] != EMPTY_SLOT);
            }
        }
        let mut slot = permutation_slot(p, ordinal, m);
        while table[slot] != EMPTY_SLOT
            invariant
                table@.len() == m,
                m <= MAX_TABLE_SIZE,
                perm_valid(p, m as int),
                ordinal <= target < m,
                table@[perm_slot(p.offset as int, p.skip as int, target, m as int)] == EMPTY_SLOT,
                slot == perm_slot(p.offset as int, p.skip as int, ordinal as int, m as int),
                filled_prefix(table@, p, ordinal as int, m as int),
            decreases target - ordinal,
        {
            proof {
                assert forall|t: int| 0 <= t < ordinal + 1 implies table@[#[trigger] perm_slot(
                    p.offset as int,
                    p.skip as int,
                    t,
                    m as int,
                )] != EMPTY_SLOT by {}
            }
            ordinal = ordinal + 1;
            slot = permutation_slot(p, ordinal, m);
        }
        let ghost before = table@;
        let ghost before_next = next@.map_values(|x: usize| x as int);
        proof {
            lemma_fundamental_div_mod_converse(populated as int, n as int, rounds, pi as int);
            lemma_fill_step(perms@, m as int, populated as nat, before, before_next, pi as int, ordinal as int);
        }
        table.set(slot, p.index);
        next.set(pi, ordinal + 1);
        proof {
            assert(next@.map_values(|x: usize| x as int) =~= before_next.update(pi as int, ordinal + 1));
            assert forall|t: int| 0 <= t < ordinal + 1 implies table@[#[trigger] perm_slot(
                p.offset as int,
                p.skip as int,
                t,
                m as int,
            )] != EMPTY_SLOT by {
                if t < ordinal {
                    lemma_fill_keeps(before, slot as int, p.index, p, ordinal as int, m as int);
                }
            }
            assert forall|i: int| 0 <= i < n implies filled_prefix(
                table@,
                #[trigger] perms@[i],
                next@[i] as int,
                m as int,
            ) by {
                if i != pi {
                    lemma_fill_keeps(before, slot as int, p.index, perms@[i], next@[i] as int, m as int);
                }
            }
            vstd::seq_lib::to_multiset_update(before, slot as int, p.index);
            assert forall|i: int|
                0 <= i < n implies table@.to_multiset().count(#[trigger] perms@[i].index) == rounds
                + if i < pi + 1 {
                1int
            } else {
                0int
            } by {
                if i != pi {
                    assert(perms@[i].index != perms@[pi as int].index);
                }
            }
        }
        populated = populated + 1;
        if pi + 1 == n {
            pi = 0;
            proof {
                assert(rounds * n + n == (rounds + 1) * n) by (nonlinear_arith);
                rounds = rounds + 1;
            }
        } else {
            pi = pi + 1;
        }
    }
    proof {
        lemma_fundamental_div_mod_converse(m as int, n as int, rounds, pi as int);
        assert forall|s: int| 0 <= s < m implies perm_owns(perms@, #[trigger] table@[s]) by {
            if table@[s] == EMPTY_SLOT {
                assert(table@.contains(EMPTY_SLOT));
            }
        }
    }
    table
}

proof fn lemma_uniform_count(s: Seq<usize>, v: usize)
    requires
        forall|i: int| 0 <= i < s.len() ==> #[trigger] s[i] == v,
    ensures
        s.to_multiset().count(v) == s.len(),
    decreases s.len(),
{
    if s.len() > 0 {
        lemma_uniform_count(s.drop_last(), v);
        vstd::seq_lib::to_multiset_build(s.drop_last(), s.last());
        assert(s.drop_last().push(s.last()) =~= s);
    } else {
        lemma_absent_count(s, v);
    }
}

proof fn lemma_absent_count(s: Seq<usize>, v: usize)
    requires
        forall|i: int| 0 <= i < s.len() ==> #[trigger] s[i] != v,
    ensures
        s.to_multiset().count(v) == 0,
{
    if s.to_multiset().count(v) > 0 {
        vstd::seq_lib::to_multiset_contains(s, v);
        assert(s.contains(v));
    }
}

/// Memory and distribution policy for [`Maglev`].
#[derive(Clone, Copy, Debug, PartialEq, Eq, Structural, Hash)]
pub struct MaglevConfig {
    table_size: usize,
}

/// Invalid Maglev configuration.
#[derive(Clone, Copy, Debug, PartialEq, Eq, Structural, Hash)]
pub enum MaglevConfigError {
    /// A permutation table needs at least two entries.
    TooSmall,
    /// The requested table exceeds [`MAX_TABLE_SIZE`].
    TooLarge,
    /// The table size is not prime.
    NotPrime,
}

impl MaglevConfigError {
    /// Describes the error.
    pub fn message(&self) -> (m: String)
        ensures
            m@ == (match *self {
                MaglevConfigError::TooSmall => "Maglev table size must be at least two"@,
                MaglevConfigError::TooLarge => "Maglev table size exceeds the supported limit"@,
                MaglevConfigError::NotPrime => "Maglev table size must be prime"@,
            }),
    {
        match self {
            MaglevConfigError::TooSmall => String::from_str("Maglev table size must be at least two"),
            MaglevConfigError::TooLarge => String::from_str(
                "Maglev table size exceeds the supported limit",
            ),
            MaglevConfigError::NotPrime => String::from_str("Maglev table size must be prime"),
        }
    }
}

impl MaglevConfig {
    #[verifier::type_invariant]
    spec fn config_valid(self) -> bool {
        &&& 2 <= self.table_size <= MAX_TABLE_SIZE
        &&& spec_is_prime(self.table_size as int)
    }

    /// The number of entries in a populated table.
    pub closed spec fn spec_table_size(self) -> usize {
        self.table_size
    }

    /// Creates a configuration with a prime-sized lookup table.
    ///
    /// Sizes below two are too small, sizes above [`MAX_TABLE_SIZE`] too
    /// large, and other sizes must be prime.
    pub fn new(table_size: usize) -> (r: Result<Self, MaglevConfigError>)
        ensures
            table_size < 2 ==> r == Err::<Self, MaglevConfigError>(MaglevConfigError::TooSmall),
            2 <= table_size && table_size > MAX_TABLE_SIZE ==> r == Err::<Self, MaglevConfigError>(
                MaglevConfigError::TooLarge,
            ),
            2 <= table_size <= MAX_TABLE_SIZE && !spec_is_prime(table_size as int) ==> r == Err::<
                Self,
                MaglevConfigError,
            >(MaglevConfigError::NotPrime),
            2 <= table_size <= MAX_TABLE_SIZE && spec_is_prime(table_size as int) ==> (r matches Ok(
                c,
            ) && c.spec_table_size() == table_size),
    {
        if table_size < 2 {
            return Err(MaglevConfigError::TooSmall);
        }
        if table_size > MAX_TABLE_SIZE {
            return Err(MaglevConfigError::TooLarge);
        }
        if !is_prime(table_size) {
            return Err(MaglevConfigError::NotPrime);
        }
        Ok(MaglevConfig { table_size })
    }

    /// Returns the number of entries in a populated lookup table.
    pub fn table_size(self) -> (n: usize)
        ensures
            n == self.spec_table_size(),
            2 <= n <= MAX_TABLE_SIZE,
            spec_is_prime(n as int),
    {
        proof {
            use_type_invariant(self);
        }
        self.table_size
    }
}

impl Default for MaglevConfig {
    fn default() -> (c: Self)
        ensures
            c.spec_table_size() == DEFAULT_TABLE_SIZE,
    {
        proof {
            lemma_default_prime();
        }
        MaglevConfig { table_size: DEFAULT_TABLE_SIZE }
    }
}

/// Result of reconciling a candidate slice with a cached Maglev table.
#[derive(Clone, Copy, Debug, PartialEq, Eq, Structural, Hash)]
pub enum MaglevUpdate {
    /// Identity, eligibility, index, and order matched the cached state.
    Unchanged,
    /// A new table was committed.
    Rebuilt {
        /// Number of eligible candidate identities.
        members: usize,
        /// Number of populated table entries, or zero for an empty set.
        table_size: usize,
    },
}

/// One committed Maglev member: identity encoding and slice index.
pub type MaglevMember = (Seq<u8>, usize);

/// The eligible members of `cs`, without their weights.
pub open spec fn maglev_members<C: Candidate>(cs: Seq<C>) -> Seq<MaglevMember> where
    C::Id: StableKey,
 {
    candidate_members(cs).map_values(|m: RingMember| (m.0, m.1))
}

/// Whether no two members share an identity encoding.
pub open spec fn maglev_keys_distinct(ms: Seq<MaglevMember>) -> bool {
    forall|a: int, b: int| 0 <= a < b < ms.len() ==> (#[trigger] ms[a]).0 != (#[trigger] ms[b]).0
}

/// The eligible candidates have distinct identities exactly when their
/// Maglev members do.
pub proof fn lemma_maglev_unique<C: Candidate>(cs: Seq<C>) where C::Id: StableKey
    requires
        cs.len() <= usize::MAX,
    ensures
        eligible_keys_unique(cs) <==> maglev_keys_distinct(maglev_members(cs)),
{
    let full = candidate_members(cs);
    let ms = maglev_members(cs);
    lemma_unique_members(cs);
    assert(ms.len() == full.len());
    assert forall|k: int| 0 <= k < ms.len() implies (#[trigger] ms[k]).0 == full[k].0 by {}
    if maglev_keys_distinct(ms) {
        assert forall|a: int, b: int| 0 <= a < b < full.len() implies (#[trigger] full[a]).0 != (#[trigger] full[b]).0 by {
            assert(ms[a].0 != ms[b].0);
        }
    }
    if member_keys_distinct(full) {
        assert forall|a: int, b: int| 0 <= a < b < ms.len() implies (#[trigger] ms[a]).0 != (#[trigger] ms[b]).0 by {
            assert(full[a].0 != full[b].0);
        }
    }
}

/// Whether some member has slice index `index`.
pub open spec fn slot_owned(ms: Seq<MaglevMember>, index: usize) -> bool {
    exists|k: int| 0 <= k < ms.len() && #[trigger] ms[k].1 == index
}

/// Whether `table` is a complete, balanced Maglev table of `ms` over `m`
/// slots: empty without members, otherwise `m` slots each owned by a member,
/// every member owning `m / n` or `m / n + 1` of them.
pub open spec fn maglev_table(table: Seq<usize>, ms: Seq<MaglevMember>, m: int) -> bool {
    &&& ms.len() == 0 ==> table.len() == 0
    &&& ms.len() > 0 ==> table.len() == m
    &&& forall|s: int| 0 <= s < table.len() ==> slot_owned(ms, #[trigger] table[s])
    &&& forall|k: int|
        0 <= k < ms.len() ==> m / (ms.len() as int) <= table.to_multiset().count(
            #[trigger] ms[k].1,
        ) <= m / (ms.len() as int) + 1
}

/// The hash of `key` in one hashing domain.
pub open spec fn spec_maglev_hash(domain: u8, key: Seq<u8>) -> u64 {
    spec_mix64(fnv1a(seq![domain] + key))
}

/// The permutation of a member over a table of `m` slots: its walk's offset
/// and skip, its slice index, and the order in which it takes its turn.
pub open spec fn member_perm(member: MaglevMember, m: int) -> Permutation {
    Permutation {
        offset: (spec_maglev_hash(6, member.0) as int % m) as usize,
        skip: (spec_maglev_hash(7, member.0) as int % (m - 1) + 1) as usize,
        index: member.1,
        order_high: spec_maglev_hash(8, member.0),
        order_low: spec_maglev_hash(9, member.0),
    }
}

/// The permutations of the members `ms`, in member order.
pub open spec fn member_perms(ms: Seq<MaglevMember>, m: int) -> Seq<Permutation> {
    ms.map_values(|x: MaglevMember| member_perm(x, m))
}

/// Whether `table` is the Maglev table of the members `ms` over `m` slots:
/// empty without members, otherwise the fill of their permutations taken in
/// ascending permutation order.
pub open spec fn is_maglev_table_of(table: Seq<usize>, ms: Seq<MaglevMember>, m: int) -> bool {
    &&& ms.len() == 0 ==> table.len() == 0
    &&& ms.len() > 0 ==> exists|sorted: Seq<Permutation>|
        #[trigger] sorted_by(sorted) && sorted.to_multiset() == member_perms(ms, m).to_multiset() && table
            == maglev_fill(sorted, m)
}

fn hash_bytes(hash_builder: &FnvBuildHasher, domain: u8, key: &[u8]) -> (h: u64)
    ensures
        h == spec_maglev_hash(domain, key@),
{
    let mut hasher = hash_builder.build_hasher();
    hasher.write_u8(domain);
    hasher.write(key);
    proof {
        super::rendezvous::lemma_fnv_one(FNV_OFFSET_BASIS, domain);
        lemma_fnv_concat(FNV_OFFSET_BASIS, seq![domain], key@);
    }
    mix64(hasher.finish())
}

/// Hashes a value in one hashing domain.
pub fn hash_identity<K: StableKey + ?Sized>(hash_builder: &FnvBuildHasher, domain: u8, value: &K) -> (h: u64)
    ensures
        h == spec_maglev_hash(domain, value.key_bytes()),
{
    let mut hasher = hash_builder.build_hasher();
    hasher.write_u8(domain);
    value.hash_into(&mut hasher);
    proof {
        super::rendezvous::lemma_fnv_one(FNV_OFFSET_BASIS, domain);
        lemma_fnv_concat(FNV_OFFSET_BASIS, seq![domain], value.key_bytes());
    }
    mix64(hasher.finish())
}

/// Reduces a hash to a slot below `modulus`.
pub fn reduce_hash(hash: u64, modulus: usize) -> (r: usize)
    requires
        modulus > 0,
    ensures
        r == hash as int % modulus as int,
{
    (hash % modulus as u64) as usize
}

spec fn members_view(ms: Seq<(Vec<u8>, usize)>) -> Seq<MaglevMember> {
    ms.map_values(|m: (Vec<u8>, usize)| (m.0@, m.1))
}

/// An unweighted, minimally disruptive Maglev lookup table.
///
/// Every eligible identity receives a deterministic permutation of a fixed,
/// prime-sized table. Reconciliation fills that table nearly evenly, and a
/// request lookup is one hash and one array access. Candidate weights do not
/// affect its cache or selection. Rebuilds are staged: duplicate eligible
/// identities or more eligible members than table entries return a
/// [`PickError`] without replacing the previous table.
pub struct Maglev {
    config: MaglevConfig,
    hash_builder: FnvBuildHasher,
    members: Vec<(Vec<u8>, usize)>,
    table: Vec<usize>,
    generation: u64,
}

impl Maglev {
    #[verifier::type_invariant]
    spec fn well_formed(self) -> bool {
        &&& maglev_table(self.table@, members_view(self.members@), self.config.spec_table_size() as int)
        &&& is_maglev_table_of(self.table@, members_view(self.members@), self.config.spec_table_size() as int)
        &&& maglev_keys_distinct(members_view(self.members@))
        &&& self.members@.len() <= self.config.spec_table_size()
    }

    /// The committed members.
    pub closed spec fn members(&self) -> Seq<MaglevMember> {
        members_view(self.members@)
    }

    /// The committed lookup table.
    pub closed spec fn table(&self) -> Seq<usize> {
        self.table@
    }

    /// The configuration.
    pub closed spec fn spec_config(&self) -> MaglevConfig {
        self.config
    }

    /// The number of committed rebuilds.
    pub closed spec fn spec_generation(&self) -> u64 {
        self.generation
    }

    /// Creates an empty deterministic Maglev policy.
    pub fn new(config: MaglevConfig) -> (p: Self)
        ensures
            p.members() == Seq::<MaglevMember>::empty(),
            p.table() == Seq::<usize>::empty(),
            p.spec_config() == config,
            p.spec_generation() == 0,
    {
        Self::with_hasher(config, FnvBuildHasher)
    }

    /// Creates an empty policy with the given hash builder.
    pub fn with_hasher(config: MaglevConfig, hash_builder: FnvBuildHasher) -> (p: Self)
        ensures
            p.members() == Seq::<MaglevMember>::empty(),
            p.table() == Seq::<usize>::empty(),
            p.spec_config() == config,
            p.spec_generation() == 0,
    {
        let members: Vec<(Vec<u8>, usize)> = Vec::new();
        let table: Vec<usize> = Vec::new();
        proof {
            assert(members_view(members@) =~= Seq::<MaglevMember>::empty());
        }
        Maglev { config, hash_builder, members, table, generation: 0 }
    }

    /// Returns the configuration.
    pub fn config(&self) -> (c: MaglevConfig)
        ensures
            c == self.spec_config(),
    {
        self.config
    }

    /// Returns the hash builder.
    pub fn hash_builder(&self) -> (b: &FnvBuildHasher)
        ensures
            *b == FnvBuildHasher,
    {
        &self.hash_builder
    }

    /// Returns the committed eligible-member count.
    pub fn member_count(&self) -> (n: usize)
        ensures
            n == self.members().len(),
    {
        self.members.len()
    }

    /// Returns the committed table length, or zero when no member is eligible.
    pub fn populated_table_size(&self) -> (n: usize)
        ensures
            n == self.table().len(),
    {
        self.table.len()
    }

    /// Returns the committed table: the slice index owning each slot.
    pub fn slot_owners(&self) -> (t: &[usize])
        ensures
            t@ == self.table(),
    {
        self.table.as_slice()
    }

    /// Returns the number of committed rebuilds, wrapping at `u64::MAX`.
    pub fn generation(&self) -> (g: u64)
        ensures
            g == self.spec_generation(),
    {
        self.generation
    }

    /// Clears the cached membership and table.
    pub fn reset(&mut self)
        ensures
            final(self).members() == Seq::<MaglevMember>::empty(),
            final(self).table() == Seq::<usize>::empty(),
            final(self).spec_config() == old(self).spec_config(),
            final(self).spec_generation() == 0,
    {
        let members: Vec<(Vec<u8>, usize)> = Vec::new();
        let table: Vec<usize> = Vec::new();
        proof {
            assert(members_view(members@) =~= Seq::<MaglevMember>::empty());
        }
        *self = Maglev {
            config: self.config,
            hash_builder: self.hash_builder,
            members,
            table,
            generation: 0,
        };
    }

    /// Decomposes the policy into configuration and hash builder.
    pub fn into_parts(self) -> (r: (MaglevConfig, FnvBuildHasher))
        ensures
            r.0 == self.spec_config(),
    {
        (self.config, self.hash_builder)
    }
}

impl Default for Maglev {
    fn default() -> (p: Self)
        ensures
            p.members() == Seq::<MaglevMember>::empty(),
            p.table() == Seq::<usize>::empty(),
            p.spec_config().spec_table_size() == DEFAULT_TABLE_SIZE,
            p.spec_generation() == 0,
    {
        Maglev::new(MaglevConfig::default())
    }
}

/// A sorted copy of distinct-index permutations keeps their validity and
/// indices, one for one.
proof fn lemma_sorted_perms(raw: Seq<Permutation>, sorted: Seq<Permutation>, ms: Seq<MaglevMember>, m: int)
    requires
        raw.to_multiset() == sorted.to_multiset(),
        raw.len() == ms.len(),
        forall|k: int| 0 <= k < raw.len() ==> (#[trigger] raw[k]).index == ms[k].1 && perm_valid(raw[k], m),
        forall|a: int, b: int| 0 <= a < b < ms.len() ==> (#[trigger] ms[a]).1 < (#[trigger] ms[b]).1,
    ensures
        sorted.len() == raw.len(),
        forall|i: int| 0 <= i < sorted.len() ==> perm_valid(#[trigger] sorted[i], m),
        forall|i: int| 0 <= i < sorted.len() ==> slot_owned(ms, (#[trigger] sorted[i]).index),
        forall|i: int, j: int|
            0 <= i < sorted.len() && 0 <= j < sorted.len() && i != j ==> (#[trigger] sorted[i]).index
                != (#[trigger] sorted[j]).index,
        forall|k: int| 0 <= k < ms.len() ==> perm_owns(sorted, #[trigger] ms[k].1),
{
    vstd::seq_lib::to_multiset_len(raw);
    vstd::seq_lib::to_multiset_len(sorted);
    assert forall|i: int| 0 <= i < sorted.len() implies perm_valid(#[trigger] sorted[i], m) && slot_owned(
        ms,
        sorted[i].index,
    ) by {
        assert(sorted.to_multiset().count(sorted[i]) > 0);
        assert(raw.contains(sorted[i]));
        let k = choose|k: int| 0 <= k < raw.len() && raw[k] == sorted[i];
        assert(raw[k].index == ms[k].1);
    }
    assert(raw.no_duplicates()) by {
        assert forall|i: int, j: int| 0 <= i < raw.len() && 0 <= j < raw.len() && i != j implies raw[i]
            != raw[j] by {
            if i < j {
                assert(ms[i].1 < ms[j].1);
            } else {
                assert(ms[j].1 < ms[i].1);
            }
        }
    }
    raw.lemma_multiset_has_no_duplicates();
    sorted.lemma_multiset_has_no_duplicates_conv();
    assert forall|i: int, j: int|
        0 <= i < sorted.len() && 0 <= j < sorted.len() && i != j implies (#[trigger] sorted[i]).index
        != (#[trigger] sorted[j]).index by {
        assert(sorted[i] != sorted[j]);
        assert(sorted.to_multiset().count(sorted[i]) > 0);
        assert(sorted.to_multiset().count(sorted[j]) > 0);
        assert(raw.contains(sorted[i]));
        assert(raw.contains(sorted[j]));
        let a = choose|a: int| 0 <= a < raw.len() && raw[a] == sorted[i];
        let b = choose|b: int| 0 <= b < raw.len() && raw[b] == sorted[j];
        if a < b {
            assert(ms[a].1 < ms[b].1);
        } else if b < a {
            assert(ms[b].1 < ms[a].1);
        }
    }
    assert forall|k: int| 0 <= k < ms.len() implies perm_owns(sorted, #[trigger] ms[k].1) by {
        assert(raw.to_multiset().count(raw[k]) > 0);
        assert(sorted.contains(raw[k]));
        let i = choose|i: int| 0 <= i < sorted.len() && sorted[i] == raw[k];
        assert(sorted[i].index == ms[k].1);
    }
}

/// A populated table over the sorted permutations is a Maglev table of the
/// members.
proof fn lemma_table_of(table: Seq<usize>, sorted: Seq<Permutation>, ms: Seq<MaglevMember>, m: int)
    requires
        m > 0,
        sorted.len() == ms.len(),
        ms.len() > 0,
        table.len() == m,
        forall|s: int| 0 <= s < m ==> perm_owns(sorted, #[trigger] table[s]),
        forall|i: int|
            0 <= i < sorted.len() ==> table.to_multiset().count(#[trigger] sorted[i].index)
                == fair_share(m, sorted.len() as int, i),
        forall|i: int| 0 <= i < sorted.len() ==> slot_owned(ms, (#[trigger] sorted[i]).index),
        forall|k: int| 0 <= k < ms.len() ==> perm_owns(sorted, #[trigger] ms[k].1),
    ensures
        maglev_table(table, ms, m),
{
    assert forall|s: int| 0 <= s < table.len() implies slot_owned(ms, #[trigger] table[s]) by {
        let i = choose|i: int| 0 <= i < sorted.len() && #[trigger] sorted[i].index == table[s];
        assert(slot_owned(ms, sorted[i].index));
    }
    assert forall|k: int| 0 <= k < ms.len() implies m / (ms.len() as int) <= table.to_multiset().count(
        #[trigger] ms[k].1,
    ) <= m / (ms.len() as int) + 1 by {
        assert(perm_owns(sorted, ms[k].1));
        let i = choose|i: int| 0 <= i < sorted.len() && #[trigger] sorted[i].index == ms[k].1;
        assert(table.to_multiset().count(sorted[i].index) == fair_share(m, sorted.len() as int, i));
    }
}

impl Maglev {
    /// Whether the committed members equal the eligible candidates, in order,
    /// with the same identity and slice index.
    pub fn matches<C: Candidate>(&self, candidates: &[C]) -> (b: bool) where C::Id: StableKey
        ensures
            b == (self.members() == maglev_members(candidates@)),
    {
        let n = candidates.len();
        let mlen = self.members.len();
        let ghost ms = self.members();
        let ghost proj = |m: RingMember| (m.0, m.1);
        let mut m: usize = 0;
        let mut index: usize = 0;
        while index < n
            invariant
                n == candidates@.len(),
                mlen == self.members@.len(),
                ms == self.members(),
                ms.len() == mlen,
                proj == (|m: RingMember| (m.0, m.1)),
                index <= n,
                m <= mlen,
                ms.take(m as int) == eligible_members(candidates@, index as int).map_values(proj),
                eligible_members(candidates@, index as int).len() == m,
            decreases n - index,
        {
            let candidate = &candidates[index];
            if candidate.is_eligible() {
                if m >= mlen {
                    proof {
                        assert(eligible_members(candidates@, index + 1).len() == mlen + 1);
                        lemma_members_len_mono(candidates@, index + 1, n as int);
                    }
                    return false;
                }
                let member = &self.members[m];
                let key = candidate.id().encode();
                if member.1 != index || !bytes_equal(member.0.as_slice(), key.as_slice()) {
                    proof {
                        let e = eligible_members(candidates@, index + 1);
                        assert(e[m as int] == (key_at(candidates@, index as int), index, candidates@[index as int].spec_weight()@));
                        assert(ms[m as int] != proj(e[m as int]));
                        lemma_members_prefix(candidates@, index + 1, n as int);
                        let all = eligible_members(candidates@, n as int);
                        assert(all[m as int] == all.take(e.len() as int)[m as int]);
                    }
                    return false;
                }
                proof {
                    assert(ms.take(m + 1) =~= eligible_members(candidates@, index + 1).map_values(proj));
                }
                m = m + 1;
            } else {
                proof {
                    assert(eligible_members(candidates@, index + 1) == eligible_members(candidates@, index as int));
                }
            }
            index = index + 1;
        }
        if m < mlen {
            proof {
                assert(eligible_members(candidates@, n as int).len() == m);
            }
            return false;
        }
        proof {
            assert(ms.take(m as int) =~= ms);
        }
        true
    }
}

/// Counts the eligible candidates.
pub fn eligible_count<C: Candidate>(candidates: &[C]) -> (count: usize) where C::Id: StableKey
    ensures
        count == candidate_members(candidates@).len(),
{
    let n = candidates.len();
    let mut count: usize = 0;
    let mut index: usize = 0;
    while index < n
        invariant
            n == candidates@.len(),
            index <= n,
            count == eligible_members(candidates@, index as int).len(),
            count <= index,
        decreases n - index,
    {
        if candidates[index].is_eligible() {
            count = count + 1;
        }
        index = index + 1;
    }
    count
}

impl Maglev {
    fn build<C: Candidate>(&self, candidates: &[C]) -> (r: (Vec<(Vec<u8>, usize)>, Vec<Permutation>)) where
        C::Id: StableKey,
        ensures
            members_view(r.0@) == maglev_members(candidates@),
            r.1@.len() == r.0@.len(),
            forall|k: int|
                0 <= k < r.1@.len() ==> (#[trigger] r.1@[k]).index == r.0@[k].1 && perm_valid(
                    r.1@[k],
                    self.spec_config().spec_table_size() as int,
                ),
            r.1@ == member_perms(members_view(r.0@), self.spec_config().spec_table_size() as int),
            forall|a: int, b: int|
                0 <= a < b < r.0@.len() ==> (#[trigger] r.0@[a]).1 < (#[trigger] r.0@[b]).1,
            forall|k: int| 0 <= k < r.0@.len() ==> (#[trigger] r.0@[k]).1 < candidates@.len(),
    {
        proof {
            use_type_invariant(&self.config);
        }
        let m = self.config.table_size;
        let n = candidates.len();
        let ghost proj = |x: RingMember| (x.0, x.1);
        let mut members: Vec<(Vec<u8>, usize)> = Vec::new();
        let mut perms: Vec<Permutation> = Vec::new();
        let mut index: usize = 0;
        while index < n
            invariant
                n == candidates@.len(),
                index <= n,
                2 <= m <= MAX_TABLE_SIZE,
                m == self.spec_config().spec_table_size(),
                proj == (|x: RingMember| (x.0, x.1)),
                members_view(members@) == eligible_members(candidates@, index as int).map_values(proj),
                perms@.len() == members@.len(),
                forall|k: int|
                    0 <= k < perms@.len() ==> (#[trigger] perms@[k]).index == members@[k].1
                        && perm_valid(perms@[k], m as int),
                perms@ == member_perms(members_view(members@), m as int),
            decreases n - index,
        {
            let candidate = &candidates[index];
            if candidate.is_eligible() {
                let key = candidate.id().encode();
                let offset = reduce_hash(hash_bytes(&self.hash_builder, 6, key.as_slice()), m);
                let skip = reduce_hash(hash_bytes(&self.hash_builder, 7, key.as_slice()), m - 1) + 1;
                let order_high = hash_bytes(&self.hash_builder, 8, key.as_slice());
                let order_low = hash_bytes(&self.hash_builder, 9, key.as_slice());
                perms.push(Permutation { offset, skip, index, order_high, order_low });
                let ghost before = members@;
                let ghost entry = (key_at(candidates@, index as int), index, candidates@[index as int].spec_weight()@);
                members.push((key, index));
                proof {
                    assert(eligible_members(candidates@, index + 1) == eligible_members(candidates@, index as int).push(entry));
                    assert(eligible_members(candidates@, index as int).push(entry).map_values(proj)
                        =~= eligible_members(candidates@, index as int).map_values(proj).push(proj(entry)));
                    assert(members_view(members@) =~= members_view(before).push((key@, index)));
                    assert(perms@ =~= member_perms(members_view(members@), m as int));
                }
            } else {
                proof {
                    assert(eligible_members(candidates@, index + 1) == eligible_members(candidates@, index as int));
                }
            }
            index = index + 1;
        }
        proof {
            lemma_eligible_members(candidates@, n as int);
            assert forall|k: int| 0 <= k < members@.len() implies (#[trigger] members@[k]).1
                == candidate_members(candidates@)[k].1 by {
                assert(members_view(members@)[k] == proj(candidate_members(candidates@)[k]));
            }
        }
        (members, perms)
    }

    /// Rebuilds the table if identity, slice index, order, or eligibility
    /// changed. Candidate weights are ignored.
    ///
    /// More eligible members than table entries report
    /// [`PickError::StateCapacityExceeded`] and duplicate eligible identities
    /// [`PickError::DuplicateIdentity`]; either way the committed table is
    /// kept.
    pub fn reconcile<C: Candidate>(&mut self, candidates: &[C]) -> (r: Result<MaglevUpdate, PickError>) where
        C::Id: StableKey,
        ensures
            final(self).spec_config() == old(self).spec_config(),
            maglev_table(
                final(self).table(),
                final(self).members(),
                final(self).spec_config().spec_table_size() as int,
            ),
            is_maglev_table_of(
                final(self).table(),
                final(self).members(),
                final(self).spec_config().spec_table_size() as int,
            ),
            ({
                let ms = maglev_members(candidates@);
                let m = old(self).spec_config().spec_table_size();
                let unchanged = final(self).members() == old(self).members() && final(self).table()
                    == old(self).table() && final(self).spec_generation() == old(
                    self,
                ).spec_generation();
                &&& old(self).members() == ms ==> r == Ok::<MaglevUpdate, PickError>(
                    MaglevUpdate::Unchanged,
                ) && unchanged
                &&& ms.len() > m ==> r == Err::<MaglevUpdate, PickError>(
                    PickError::StateCapacityExceeded,
                ) && unchanged
                &&& ms.len() <= m && !eligible_keys_unique(candidates@) ==> r == Err::<
                    MaglevUpdate,
                    PickError,
                >(PickError::DuplicateIdentity) && unchanged
                &&& old(self).members() != ms && ms.len() <= m && eligible_keys_unique(candidates@)
                    ==> r == Ok::<MaglevUpdate, PickError>(
                    MaglevUpdate::Rebuilt {
                        members: ms.len() as usize,
                        table_size: if ms.len() == 0 {
                            0
                        } else {
                            m
                        },
                    },
                ) && final(self).members() == ms && final(self).spec_generation() == (if old(
                    self,
                ).spec_generation() == u64::MAX {
                    0
                } else {
                    old(self).spec_generation() + 1
                })
            }),
    {
        let clen = candidates.len();
        proof {
            use_type_invariant(&*self);
            use_type_invariant(&self.config);
            lemma_maglev_unique(candidates@);
        }
        if self.matches(candidates) {
            return Ok(MaglevUpdate::Unchanged);
        }
        let m = self.config.table_size;
        let count = eligible_count(candidates);
        if count > m {
            return Err(PickError::StateCapacityExceeded);
        }
        if find_duplicate_eligible(candidates) {
            return Err(PickError::DuplicateIdentity);
        }
        let (next, raw) = self.build(candidates);
        let ghost ms = members_view(next@);
        proof {
            assert forall|a: int, b: int| 0 <= a < b < ms.len() implies (#[trigger] ms[a]).1 < (
            #[trigger] ms[b]).1 by {
                assert(next@[a].1 < next@[b].1);
            }
            assert forall|k: int| 0 <= k < raw@.len() implies (#[trigger] raw@[k]).index == ms[k].1
                && perm_valid(raw@[k], m as int) by {}
        }
        let table = if raw.len() == 0 {
            proof {
                assert(ms.len() == 0);
            }
            Vec::new()
        } else {
            let sorted = merge_sort(&raw);
            proof {
                lemma_sorted_perms(raw@, sorted@, ms, m as int);
            }
            let table = fill_table(m, &sorted);
            proof {
                lemma_table_of(table@, sorted@, ms, m as int);
                assert(sorted_by(sorted@) && sorted@.to_multiset() == member_perms(ms, m as int).to_multiset()
                    && table@ == maglev_fill(sorted@, m as int));
            }
            table
        };
        let table_size = table.len();
        let generation = self.generation.wrapping_add(1);
        *self = Maglev {
            config: self.config,
            hash_builder: self.hash_builder,
            members: next,
            table,
            generation,
        };
        Ok(MaglevUpdate::Rebuilt { members: count, table_size })
    }
}

impl<C: Candidate, Context: StableKey + ?Sized> Policy<C, Context> for Maglev where C::Id: StableKey {
    open spec fn pick_outcome(
        &self,
        after: &Self,
        candidates: &[C],
        context: &Context,
        r: Result<Selection, PickError>,
    ) -> bool {
        &&& ({
            let ms = maglev_members(candidates@);
            let m = self.spec_config().spec_table_size();
            let committed = self.members() == ms || (ms.len() <= m && eligible_keys_unique(
                candidates@,
            ));
            let kept = after.members() == self.members() && after.table() == self.table()
                && after.spec_generation() == self.spec_generation();
            &&& ms.len() > m ==> r == Err::<Selection, PickError>(PickError::StateCapacityExceeded)
                && kept
            &&& ms.len() <= m && !eligible_keys_unique(candidates@) ==> r == Err::<
                Selection,
                PickError,
            >(PickError::DuplicateIdentity) && kept
            &&& self.members() == ms ==> kept
            &&& self.members() != ms && ms.len() <= m && eligible_keys_unique(candidates@)
                ==> after.spec_generation() == (if self.spec_generation() == u64::MAX {
                0
            } else {
                self.spec_generation() + 1
            })
            &&& committed ==> after.members() == ms
            &&& committed && ms.len() == 0 ==> r == Err::<Selection, PickError>(
                super::spec_no_candidate_error(candidates@.len()),
            )
            &&& committed && ms.len() > 0 ==> (r matches Ok(s) && s@ == after.table()[
                spec_maglev_hash(10, context.key_bytes()) as int % after.table().len() as int
            ])
        })
        &&& after.spec_config() == self.spec_config()
        &&& maglev_table(
            after.table(),
            after.members(),
            after.spec_config().spec_table_size() as int,
        )
        &&& is_maglev_table_of(
            after.table(),
            after.members(),
            after.spec_config().spec_table_size() as int,
        )
    }

    /// Reconciles the table with `candidates`, then selects the owner of the
    /// slot that the request hash reduces to.
    #[verifier::rlimit(40)]
    fn pick(&mut self, candidates: &[C], context: &Context) -> (r: Result<Selection, PickError>) {
        match self.reconcile(candidates) {
            Ok(_) => {},
            Err(e) => {
                return Err(e);
            },
        }
        let count = candidates.len();
        proof {
            use_type_invariant(&*self);
            use_type_invariant(&self.config);
        }
        if self.table.len() == 0 {
            return Err(super::no_candidate_error(count));
        }
        let slot = reduce_hash(hash_identity(&self.hash_builder, 10, context), self.table.len());
        let index = self.table[slot];
        assert(index < candidates@.len()) by {
            lemma_eligible_members(candidates@, candidates@.len() as int);
            assert(slot_owned(self.members(), index));
            let k = choose|k: int| 0 <= k < self.members().len() && #[trigger] self.members()[k].1
                == index;
            assert(candidate_members(candidates@)[k].1 < candidates@.len());
        }
        Ok(Selection::new(index))
    }
}

/// The part of a permutation its identity fixes: its turn order and walk.
pub open spec fn perm_site(p: Permutation) -> (u64, u64, usize, usize) {
    (p.order_high, p.order_low, p.offset, p.skip)
}

/// Whether site `x` takes its turn strictly before site `y`.
pub open spec fn site_before(x: (u64, u64, usize, usize), y: (u64, u64, usize, usize)) -> bool {
    x.0 < y.0 || (x.0 == y.0 && x.1 < y.1)
}

/// Two sequences in strictly ascending turn order that hold the same sites
/// are equal.
proof fn lemma_strict_same_sites(a: Seq<(u64, u64, usize, usize)>, b: Seq<(u64, u64, usize, usize)>)
    requires
        forall|i: int, j: int| 0 <= i < j < a.len() ==> site_before(#[trigger] a[i], #[trigger] a[j]),
        forall|i: int, j: int| 0 <= i < j < b.len() ==> site_before(#[trigger] b[i], #[trigger] b[j]),
        forall|x: (u64, u64, usize, usize)|
            #![trigger a.contains(x)]
            #![trigger b.contains(x)]
            a.contains(x) <==> b.contains(x),
    ensures
        a == b,
    decreases a.len(),
{
    if a.len() == 0 {
        if b.len() > 0 {
            assert(b.contains(b[0]));
        }
        assert(a =~= b);
    } else {
        assert(a.contains(a[0]));
        let j = choose|j: int| 0 <= j < b.len() && b[j] == a[0];
        assert(b.contains(b[0]));
        let i = choose|i: int| 0 <= i < a.len() && a[i] == b[0];
        if j > 0 {
            assert(site_before(b[0], b[j]));
            if i > 0 {
                assert(site_before(a[0], a[i]));
            }
        }
        assert(j == 0);
        let ra = a.drop_first();
        let rb = b.drop_first();
        assert forall|x: (u64, u64, usize, usize)|
            #![trigger ra.contains(x)]
            #![trigger rb.contains(x)]
            ra.contains(x) <==> rb.contains(x) by {
            if ra.contains(x) {
                let k = choose|k: int| 0 <= k < ra.len() && ra[k] == x;
                assert(a[k + 1] == x);
                assert(site_before(a[0], a[k + 1]));
                assert(a.contains(x));
                let l = choose|l: int| 0 <= l < b.len() && b[l] == x;
                assert(l != 0);
                assert(rb[l - 1] == x);
            }
            if rb.contains(x) {
                let k = choose|k: int| 0 <= k < rb.len() && rb[k] == x;
                assert(b[k + 1] == x);
                assert(site_before(b[0], b[k + 1]));
                assert(b.contains(x));
                let l = choose|l: int| 0 <= l < a.len() && a[l] == x;
                assert(l != 0);
                assert(ra[l - 1] == x);
            }
        }
        assert forall|i: int, j: int| 0 <= i < j < ra.len() implies site_before(#[trigger] ra[i], #[trigger] ra[j]) by {
            assert(site_before(a[i + 1], a[j + 1]));
        }
        assert forall|i: int, j: int| 0 <= i < j < rb.len() implies site_before(#[trigger] rb[i], #[trigger] rb[j]) by {
            assert(site_before(b[i + 1], b[j + 1]));
        }
        lemma_strict_same_sites(ra, rb);
        assert(a =~= seq![a[0]] + ra);
        assert(b =~= seq![b[0]] + rb);
    }
}

/// Whether two tables agree on which slots are free, and each taken slot
/// holds the indices of the permutations at one turn position.
pub open spec fn tables_match(tl: Seq<usize>, tr: Seq<usize>, sl: Seq<Permutation>, sr: Seq<Permutation>, m: int) -> bool {
    &&& tl.len() == m
    &&& tr.len() == m
    &&& forall|x: int| 0 <= x < m ==> ((#[trigger] tl[x] == EMPTY_SLOT) == (tr[x] == EMPTY_SLOT))
    &&& forall|x: int|
        0 <= x < m && #[trigger] tl[x] != EMPTY_SLOT ==> exists|i: int|
            0 <= i < sl.len() && tl[x] == #[trigger] sl[i].index && tr[x] == sr[i].index
}

proof fn lemma_first_free_relabel(tl: Seq<usize>, tr: Seq<usize>, pl: Permutation, pr: Permutation, t: int, m: int)
    requires
        m > 0,
        tl.len() == m,
        tr.len() == m,
        forall|x: int| 0 <= x < m ==> ((#[trigger] tl[x] == EMPTY_SLOT) == (tr[x] == EMPTY_SLOT)),
        pl.offset == pr.offset,
        pl.skip == pr.skip,
    ensures
        first_free(tl, pl, t, m) == first_free(tr, pr, t, m),
    decreases m - t,
{
    if t < m {
        let x = perm_slot(pl.offset as int, pl.skip as int, t, m);
        vstd::arithmetic::div_mod::lemma_mod_bound(pl.offset as int + t * pl.skip as int, m);
        assert((tl[x] == EMPTY_SLOT) == (tr[x] == EMPTY_SLOT));
        lemma_first_free_relabel(tl, tr, pl, pr, t + 1, m);
    }
}

/// Filling with permutations that walk alike, turn by turn, gives tables
/// that differ only in the indices the permutations carry.
proof fn lemma_fill_relabel(sl: Seq<Permutation>, sr: Seq<Permutation>, m: int, steps: nat)
    requires
        m > 0,
        sl.len() == sr.len(),
        sl.len() > 0,
        forall|i: int| 0 <= i < sl.len() ==> (#[trigger] sl[i]).offset == sr[i].offset && sl[i].skip == sr[i].skip,
        forall|i: int| 0 <= i < sl.len() ==> (#[trigger] sl[i]).index != EMPTY_SLOT && sr[i].index != EMPTY_SLOT,
    ensures
        fill_after(sl, m, steps).1 == fill_after(sr, m, steps).1,
        tables_match(fill_after(sl, m, steps).0, fill_after(sr, m, steps).0, sl, sr, m),
    decreases steps,
{
    if steps == 0 {
        assert(fill_after(sl, m, 0).1 =~= fill_after(sr, m, 0).1);
    } else {
        let u = (steps - 1) as nat;
        lemma_fill_relabel(sl, sr, m, u);
        let (tl, nl) = fill_after(sl, m, u);
        let (tr, nr) = fill_after(sr, m, u);
        let i = u as int % (sl.len() as int);
        vstd::arithmetic::div_mod::lemma_mod_bound(u as int, sl.len() as int);
        lemma_first_free_relabel(tl, tr, sl[i], sr[i], nl[i], m);
        let t = first_free(tl, sl[i], nl[i], m);
        let x = perm_slot(sl[i].offset as int, sl[i].skip as int, t, m);
        vstd::arithmetic::div_mod::lemma_mod_bound(sl[i].offset as int + t * sl[i].skip as int, m);
        let tl2 = tl.update(x, sl[i].index);
        let tr2 = tr.update(x, sr[i].index);
        assert(fill_after(sl, m, steps) == (tl2, nl.update(i, t + 1)));
        assert(fill_after(sr, m, steps) == (tr2, nr.update(i, t + 1)));
        assert forall|y: int| 0 <= y < m && #[trigger] tl2[y] != EMPTY_SLOT implies exists|k: int|
            0 <= k < sl.len() && tl2[y] == #[trigger] sl[k].index && tr2[y] == sr[k].index by {
            if y == x {
                assert(tl2[y] == sl[i].index && tr2[y] == sr[i].index);
            } else {
                assert(tl[y] != EMPTY_SLOT);
            }
        }
        assert forall|y: int| 0 <= y < m implies ((#[trigger] tl2[y] == EMPTY_SLOT) == (tr2[y] == EMPTY_SLOT)) by {
            if y != x {
                assert((tl[y] == EMPTY_SLOT) == (tr[y] == EMPTY_SLOT));
            }
        }
    }
}

/// Whether no two distinct eligible identities of `cs` share the hashes that
/// order their turns.
pub open spec fn turn_hashes_distinct<C: Candidate>(cs: Seq<C>) -> bool where C::Id: StableKey {
    forall|i: int, j: int|
        eligible_at(cs, i) && eligible_at(cs, j) && key_at(cs, i) != key_at(cs, j) ==> (
        spec_maglev_hash(8, #[trigger] key_at(cs, i)),
        spec_maglev_hash(9, key_at(cs, i)),
        ) != (spec_maglev_hash(8, #[trigger] key_at(cs, j)), spec_maglev_hash(9, key_at(cs, j)))
}

/// The member behind a permutation of a sorted permutation list.
proof fn lemma_perm_member<C: Candidate>(cs: Seq<C>, sorted: Seq<Permutation>, m: int, k: int) -> (a: int) where
    C::Id: StableKey,
    requires
        sorted.to_multiset() == member_perms(maglev_members(cs), m).to_multiset(),
        0 <= k < sorted.len(),
    ensures
        0 <= a < candidate_members(cs).len(),
        sorted[k] == member_perm(maglev_members(cs)[a], m),
        maglev_members(cs)[a] == (candidate_members(cs)[a].0, candidate_members(cs)[a].1),
{
    broadcast use vstd::seq_lib::group_to_multiset_ensures;

    let ps = member_perms(maglev_members(cs), m);
    assert(sorted.to_multiset().count(sorted[k]) > 0);
    assert(ps.contains(sorted[k]));
    let a = choose|a: int| 0 <= a < ps.len() && ps[a] == sorted[k];
    a
}

/// Each turn site of one ordering's sorted permutations is a turn site of
/// another ordering's.
proof fn lemma_site_transfer<C: Candidate>(
    from: Seq<C>,
    to: Seq<C>,
    sf: Seq<Permutation>,
    st: Seq<Permutation>,
    m: int,
    k: int,
) where C::Id: StableKey
    requires
        from.len() <= usize::MAX,
        to.len() <= usize::MAX,
        from.to_multiset() == to.to_multiset(),
        sf.to_multiset() == member_perms(maglev_members(from), m).to_multiset(),
        st.to_multiset() == member_perms(maglev_members(to), m).to_multiset(),
        0 <= k < sf.len(),
    ensures
        exists|j: int| 0 <= j < st.len() && perm_site(#[trigger] st[j]) == perm_site(sf[k]),
{
    broadcast use vstd::seq_lib::group_to_multiset_ensures;

    let a = lemma_perm_member(from, sf, m, k);
    let b = super::ring_hash::lemma_twin_member(from, to, a);
    let pt = member_perms(maglev_members(to), m);
    assert(pt[b] == member_perm(maglev_members(to)[b], m));
    assert(st.to_multiset().count(pt[b]) > 0);
    let j = choose|j: int| 0 <= j < st.len() && st[j] == pt[b];
    assert(perm_site(st[j]) == perm_site(sf[k]));
}

/// Sorted permutations of distinct identities with distinct turn hashes
/// take their turns in strictly ascending order.
proof fn lemma_sorted_sites_strict<C: Candidate>(cs: Seq<C>, sorted: Seq<Permutation>, m: int) where
    C::Id: StableKey,
    requires
        cs.len() <= usize::MAX,
        eligible_keys_unique(cs),
        turn_hashes_distinct(cs),
        sorted_by(sorted),
        sorted.to_multiset() == member_perms(maglev_members(cs), m).to_multiset(),
    ensures
        forall|i: int, j: int|
            0 <= i < j < sorted.len() ==> site_before(perm_site(#[trigger] sorted[i]), perm_site(#[trigger] sorted[j])),
{
    let ms = maglev_members(cs);
    let ps = member_perms(ms, m);
    lemma_eligible_members(cs, cs.len() as int);
    assert(ps.no_duplicates()) by {
        assert forall|a: int, b: int| 0 <= a < ps.len() && 0 <= b < ps.len() && a != b implies ps[a] != ps[b] by {
            if a < b {
                assert(candidate_members(cs)[a].1 < candidate_members(cs)[b].1);
            } else {
                assert(candidate_members(cs)[b].1 < candidate_members(cs)[a].1);
            }
        }
    }
    ps.lemma_multiset_has_no_duplicates();
    sorted.lemma_multiset_has_no_duplicates_conv();
    assert forall|i: int, j: int| 0 <= i < j < sorted.len() implies site_before(
        perm_site(#[trigger] sorted[i]),
        perm_site(#[trigger] sorted[j]),
    ) by {
        assert(sorted[i].key_le(sorted[j]));
        let a = lemma_perm_member(cs, sorted, m, i);
        let b = lemma_perm_member(cs, sorted, m, j);
        lemma_member_facts(cs, a);
        lemma_member_facts(cs, b);
        if !site_before(perm_site(sorted[i]), perm_site(sorted[j])) {
            let ka = candidate_members(cs)[a].1 as int;
            let kb = candidate_members(cs)[b].1 as int;
            assert(key_at(cs, ka) == key_at(cs, kb));
            assert(ka == kb);
            assert(sorted[i] == sorted[j]);
        }
    }
}

/// Eligible identities of a reordered slice are eligible identities of the
/// slice it reorders, so distinct turn hashes carry over.
proof fn lemma_turn_hashes_transfer<C: Candidate>(left: Seq<C>, right: Seq<C>) where C::Id: StableKey
    requires
        left.to_multiset() == right.to_multiset(),
        turn_hashes_distinct(left),
    ensures
        turn_hashes_distinct(right),
{
    broadcast use vstd::seq_lib::group_to_multiset_ensures;

    assert forall|i: int, j: int|
        eligible_at(right, i) && eligible_at(right, j) && key_at(right, i) != key_at(right, j) implies (
        spec_maglev_hash(8, #[trigger] key_at(right, i)),
        spec_maglev_hash(9, key_at(right, i)),
    ) != (spec_maglev_hash(8, #[trigger] key_at(right, j)), spec_maglev_hash(9, key_at(right, j))) by {
        assert(right.to_multiset().count(right[i]) > 0);
        assert(right.to_multiset().count(right[j]) > 0);
        let x = choose|x: int| 0 <= x < left.len() && left[x] == right[i];
        let y = choose|y: int| 0 <= y < left.len() && left[y] == right[j];
        assert(eligible_at(left, x) && eligible_at(left, y));
        assert(key_at(left, x) == key_at(right, i) && key_at(left, y) == key_at(right, j));
    }
}

/// The identity owning a table slot does not depend on candidate order:
/// over any reordering of the same candidates, each slot of the Maglev
/// table belongs to the same identity, provided the eligible identities are
/// distinct and no two of them share the hashes that order their turns.
pub proof fn lemma_maglev_order_independent<C: Candidate>(
    left: Seq<C>,
    right: Seq<C>,
    m: int,
    left_table: Seq<usize>,
    right_table: Seq<usize>,
    slot: int,
) where C::Id: StableKey
    requires
        left.len() <= usize::MAX,
        left.to_multiset() == right.to_multiset(),
        eligible_keys_unique(left),
        eligible_keys_unique(right),
        turn_hashes_distinct(left),
        m > 0,
        is_maglev_table_of(left_table, maglev_members(left), m),
        is_maglev_table_of(right_table, maglev_members(right), m),
        maglev_table(left_table, maglev_members(left), m),
        0 <= slot < left_table.len(),
    ensures
        right_table.len() == left_table.len(),
        key_at(left, left_table[slot] as int) == key_at(right, right_table[slot] as int),
{
    broadcast use vstd::seq_lib::group_to_multiset_ensures;

    let ml = maglev_members(left);
    let mr = maglev_members(right);
    assert(right.len() == left.len()) by {
        vstd::seq_lib::to_multiset_len(left);
        vstd::seq_lib::to_multiset_len(right);
    }
    assert(ml.len() > 0);
    let b0 = super::ring_hash::lemma_twin_member(left, right, 0);
    assert(mr.len() > 0);
    let sl = choose|sorted: Seq<Permutation>|
        #[trigger] sorted_by(sorted) && sorted.to_multiset() == member_perms(ml, m).to_multiset() && left_table
            == maglev_fill(sorted, m);
    let sr = choose|sorted: Seq<Permutation>|
        #[trigger] sorted_by(sorted) && sorted.to_multiset() == member_perms(mr, m).to_multiset() && right_table
            == maglev_fill(sorted, m);
    lemma_turn_hashes_transfer(left, right);
    lemma_sorted_sites_strict(left, sl, m);
    lemma_sorted_sites_strict(right, sr, m);
    let sites_l = sl.map_values(|p: Permutation| perm_site(p));
    let sites_r = sr.map_values(|p: Permutation| perm_site(p));
    assert forall|x: (u64, u64, usize, usize)|
        #![trigger sites_l.contains(x)]
        #![trigger sites_r.contains(x)]
        sites_l.contains(x) <==> sites_r.contains(x) by {
        if sites_l.contains(x) {
            let k = choose|k: int| 0 <= k < sites_l.len() && sites_l[k] == x;
            lemma_site_transfer(left, right, sl, sr, m, k);
            let j = choose|j: int| 0 <= j < sr.len() && perm_site(#[trigger] sr[j]) == perm_site(sl[k]);
            assert(sites_r[j] == x);
        }
        if sites_r.contains(x) {
            let k = choose|k: int| 0 <= k < sites_r.len() && sites_r[k] == x;
            lemma_site_transfer(right, left, sr, sl, m, k);
            let j = choose|j: int| 0 <= j < sl.len() && perm_site(#[trigger] sl[j]) == perm_site(sr[k]);
            assert(sites_l[j] == x);
        }
    }
    assert forall|i: int, j: int| 0 <= i < j < sites_l.len() implies site_before(#[trigger] sites_l[i], #[trigger] sites_l[j]) by {
        assert(site_before(perm_site(sl[i]), perm_site(sl[j])));
    }
    assert forall|i: int, j: int| 0 <= i < j < sites_r.len() implies site_before(#[trigger] sites_r[i], #[trigger] sites_r[j]) by {
        assert(site_before(perm_site(sr[i]), perm_site(sr[j])));
    }
    lemma_strict_same_sites(sites_l, sites_r);
    assert(sl.len() == sr.len());
    lemma_eligible_members(left, left.len() as int);
    lemma_eligible_members(right, right.len() as int);
    assert forall|i: int| 0 <= i < sl.len() implies (#[trigger] sl[i]).offset == sr[i].offset && sl[i].skip == sr[i].skip by {
        assert(sites_l[i] == sites_r[i]);
    }
    assert forall|i: int| 0 <= i < sl.len() implies (#[trigger] sl[i]).index != EMPTY_SLOT && sr[i].index != EMPTY_SLOT by {
        let a = lemma_perm_member(left, sl, m, i);
        let b = lemma_perm_member(right, sr, m, i);
        assert(candidate_members(left)[a].1 < left.len());
        assert(candidate_members(right)[b].1 < right.len());
    }
    assert(sl.len() == ml.len()) by {
        vstd::seq_lib::to_multiset_len(sl);
        vstd::seq_lib::to_multiset_len(member_perms(ml, m));
    }
    lemma_fill_relabel(sl, sr, m, m as nat);
    assert(slot_owned(ml, left_table[slot]));
    let k = choose|k: int| 0 <= k < ml.len() && #[trigger] ml[k].1 == left_table[slot];
    assert(candidate_members(left)[k].1 < left.len());
    assert(left_table[slot] != EMPTY_SLOT);
    let i = choose|i: int| 0 <= i < sl.len() && left_table[slot] == #[trigger] sl[i].index && right_table[slot] == sr[i].index;
    let a = lemma_perm_member(left, sl, m, i);
    let b = lemma_perm_member(right, sr, m, i);
    assert(sites_l[i] == sites_r[i]);
    lemma_member_facts(left, a);
    lemma_member_facts(right, b);
    let a2 = super::ring_hash::lemma_twin_member(right, left, b);
    lemma_member_facts(left, a2);
}

} // verus!
