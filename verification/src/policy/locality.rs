//! Health-adjusted weighted routing across localities inside the priority
//! chosen by [`PriorityWeightedRandom`].

use vstd::prelude::*;

use core::marker::PhantomData;

use rand::rngs::StdRng;

use crate::backend::{Candidate, Status};
use crate::error::PickError;
use crate::hash::bytes_equal;
use crate::order::{OrderKey, be_bytes_u32, be_bytes_u64};
use crate::selection::Selection;
use crate::weight::Weight;

use super::Policy;
use super::priority::{
    DEFAULT_OVERPROVISIONING_FACTOR_PERCENT, DEFAULT_PANIC_THRESHOLD_PERCENT, PanicMode, any_member, group_overflow, in_scope, is_group_list, member_at, ratio_units, scope_outcome,
    seq_prefix, spec_ratio_units, ticket_owner, weight_at, PriorityCandidate,
    PriorityConfig, PriorityMode, PriorityWeightedRandom,
};

verus! {

/// A priority candidate assigned to a weighted locality.
///
/// The locality weight is control-plane traffic preference, distinct from
/// [`Candidate::weight`], which divides a locality's traffic among its
/// endpoints. Every member of one `(priority, locality)` group must advertise
/// the same locality weight. Localities are told apart, and ordered, by the
/// encoding of their identity.
pub trait LocalityCandidate: PriorityCandidate {
    /// The locality identity.
    type Locality: OrderKey;

    /// The locality.
    spec fn spec_locality(&self) -> Self::Locality;

    /// The control-plane weight of the locality.
    spec fn spec_locality_weight(&self) -> Weight;

    /// Returns the candidate's locality.
    fn locality(&self) -> (l: &Self::Locality)
        ensures
            *l == self.spec_locality(),
    ;

    /// Returns the control-plane weight of the locality.
    fn locality_weight(&self) -> (w: Weight)
        ensures
            w == self.spec_locality_weight(),
    ;
}

/// Adds locality metadata to a [`PriorityCandidate`].
#[derive(Clone, Debug, PartialEq, Eq)]
pub struct Localized<C, L> {
    inner: C,
    locality: L,
    locality_weight: Weight,
}

impl<C, L> Localized<C, L> {
    /// The wrapped candidate.
    pub closed spec fn spec_inner(&self) -> C {
        self.inner
    }

    /// The locality identity.
    pub closed spec fn spec_locality_value(&self) -> L {
        self.locality
    }

    /// The configured locality weight.
    pub closed spec fn spec_configured_weight(&self) -> Weight {
        self.locality_weight
    }

    /// Wraps a candidate in a unit-weight locality.
    pub fn new(inner: C, locality: L) -> (l: Self)
        ensures
            l.spec_inner() == inner,
            l.spec_locality_value() == locality,
            l.spec_configured_weight()@ == 1,
    {
        Localized { inner, locality, locality_weight: Weight::one() }
    }

    /// Sets the control-plane weight of the locality.
    pub fn with_locality_weight(self, locality_weight: Weight) -> (l: Self)
        ensures
            l.spec_inner() == self.spec_inner(),
            l.spec_locality_value() == self.spec_locality_value(),
            l.spec_configured_weight() == locality_weight,
    {
        Localized { inner: self.inner, locality: self.locality, locality_weight }
    }

    /// Returns the wrapped candidate.
    pub fn inner(&self) -> (c: &C)
        ensures
            *c == self.spec_inner(),
    {
        &self.inner
    }

    /// Returns the wrapped candidate mutably.
    pub fn inner_mut(&mut self) -> (c: &mut C)
        ensures
            *c == old(self).spec_inner(),
            final(self).spec_inner() == *final(c),
            final(self).spec_locality_value() == old(self).spec_locality_value(),
            final(self).spec_configured_weight() == old(self).spec_configured_weight(),
    {
        &mut self.inner
    }

    /// Returns the locality identity.
    pub fn locality(&self) -> (l: &L)
        ensures
            *l == self.spec_locality_value(),
    {
        &self.locality
    }

    /// Returns the control-plane locality weight.
    pub fn locality_weight(&self) -> (w: Weight)
        ensures
            w == self.spec_configured_weight(),
    {
        self.locality_weight
    }

    /// Removes the locality wrapper.
    pub fn into_inner(self) -> (c: C)
        ensures
            c == self.spec_inner(),
    {
        self.inner
    }
}

impl<C: Candidate, L> Candidate for Localized<C, L> {
    type Id = C::Id;

    type Load = C::Load;

    open spec fn spec_id(&self) -> C::Id {
        self.spec_inner().spec_id()
    }

    open spec fn spec_load(&self) -> C::Load {
        self.spec_inner().spec_load()
    }

    open spec fn spec_weight(&self) -> Weight {
        self.spec_inner().spec_weight()
    }

    open spec fn spec_status(&self) -> Status {
        self.spec_inner().spec_status()
    }

    open spec fn spec_eligible(&self) -> bool {
        self.spec_inner().spec_eligible()
    }

    fn id(&self) -> (r: &C::Id) {
        self.inner.id()
    }

    fn weight(&self) -> (w: Weight) {
        self.inner.weight()
    }

    fn load(&self) -> (r: &C::Load) {
        self.inner.load()
    }

    fn status(&self) -> (s: Status) {
        self.inner.status()
    }

    fn is_eligible(&self) -> (b: bool) {
        self.inner.is_eligible()
    }
}

impl<C: PriorityCandidate, L> PriorityCandidate for Localized<C, L> {
    open spec fn spec_priority(&self) -> u32 {
        self.spec_inner().spec_priority()
    }

    open spec fn spec_priority_member(&self) -> bool {
        self.spec_inner().spec_priority_member()
    }

    open spec fn spec_panic_eligible(&self) -> bool {
        self.spec_inner().spec_panic_eligible()
    }

    fn priority(&self) -> (p: u32) {
        self.inner.priority()
    }

    fn is_priority_member(&self) -> (b: bool) {
        self.inner.is_priority_member()
    }

    fn is_panic_eligible(&self) -> (b: bool) {
        self.inner.is_panic_eligible()
    }
}

impl<C: PriorityCandidate, L: OrderKey> LocalityCandidate for Localized<C, L> {
    type Locality = L;

    open spec fn spec_locality(&self) -> L {
        self.spec_locality_value()
    }

    open spec fn spec_locality_weight(&self) -> Weight {
        self.spec_configured_weight()
    }

    fn locality(&self) -> (l: &L) {
        &self.locality
    }

    fn locality_weight(&self) -> (w: Weight) {
        self.locality_weight
    }
}

/// A selected endpoint with its priority, locality weight, and health mode.
#[derive(Clone, Copy, Debug, PartialEq, Eq, Hash)]
pub struct LocalityDecision {
    selection: Selection,
    priority: u32,
    priority_mode: PriorityMode,
    locality_weight: Weight,
    effective_locality_weight: u64,
}

impl LocalityDecision {
    /// The selected candidate.
    pub closed spec fn spec_selection(self) -> Selection {
        self.selection
    }

    /// The selected priority.
    pub closed spec fn spec_priority(self) -> u32 {
        self.priority
    }

    /// The health mode of the selected priority.
    pub closed spec fn spec_mode(self) -> PriorityMode {
        self.priority_mode
    }

    /// The configured weight of the selected locality.
    pub closed spec fn spec_locality_weight(self) -> Weight {
        self.locality_weight
    }

    /// The health-adjusted weight of the selected locality.
    pub closed spec fn spec_effective(self) -> u64 {
        self.effective_locality_weight
    }

    /// Returns the selected candidate index.
    pub fn selection(self) -> (s: Selection)
        ensures
            s == self.spec_selection(),
    {
        self.selection
    }

    /// Returns the selected priority number.
    pub fn priority(self) -> (p: u32)
        ensures
            p == self.spec_priority(),
    {
        self.priority
    }

    /// Returns whether healthy or panic eligibility was used.
    pub fn priority_mode(self) -> (m: PriorityMode)
        ensures
            m == self.spec_mode(),
    {
        self.priority_mode
    }

    /// Returns the configured weight of the selected locality.
    pub fn locality_weight(self) -> (w: Weight)
        ensures
            w == self.spec_locality_weight(),
    {
        self.locality_weight
    }

    /// Returns the health-adjusted weight used for locality selection.
    pub fn effective_locality_weight(self) -> (e: u64)
        ensures
            e == self.spec_effective(),
    {
        self.effective_locality_weight
    }
}

/// The order encoding of the locality of the candidate at `i`.
pub open spec fn locality_key_at<C: LocalityCandidate>(cs: Seq<C>, i: int) -> Seq<u8> {
    cs[i].spec_locality().order_bytes()
}

/// The locality weight of the candidate at `i`.
pub open spec fn locality_weight_at<C: LocalityCandidate>(cs: Seq<C>, i: int) -> u32 {
    cs[i].spec_locality_weight()@
}

/// Whether the candidate at `i` is a member of priority `p`.
pub open spec fn priority_member<C: PriorityCandidate>(cs: Seq<C>, i: int, p: u32) -> bool {
    member_at(cs, i) && cs[i].spec_priority() == p
}

/// Whether the candidate at `i` is a member of priority `p` in the
/// locality encoded as `key`.
pub open spec fn in_locality<C: LocalityCandidate>(cs: Seq<C>, i: int, p: u32, key: Seq<u8>) -> bool {
    priority_member(cs, i, p) && locality_key_at(cs, i) == key
}

/// The summed endpoint weight of locality `key` at priority `p`, among the
/// first `n` candidates.
pub open spec fn locality_total<C: LocalityCandidate>(cs: Seq<C>, p: u32, key: Seq<u8>, n: int) -> int
    decreases n,
{
    if n <= 0 {
        0
    } else {
        locality_total(cs, p, key, n - 1) + if in_locality(cs, n - 1, p, key) {
            weight_at(cs, n - 1)
        } else {
            0
        }
    }
}

/// The summed endpoint weight of the members of locality `key` that serve
/// priority `p` in `mode`, among the first `n` candidates.
pub open spec fn locality_serving<C: LocalityCandidate>(
    cs: Seq<C>,
    p: u32,
    mode: PriorityMode,
    key: Seq<u8>,
    n: int,
) -> int
    decreases n,
{
    if n <= 0 {
        0
    } else {
        locality_serving(cs, p, mode, key, n - 1) + if in_scope(cs, n - 1, p, mode) && locality_key_at(
            cs,
            n - 1,
        ) == key {
            weight_at(cs, n - 1)
        } else {
            0
        }
    }
}

/// Whether every locality at priority `p` advertises one weight.
pub open spec fn consistent_localities<C: LocalityCandidate>(cs: Seq<C>, p: u32) -> bool {
    forall|i: int, j: int|
        #![trigger locality_weight_at(cs, i), locality_weight_at(cs, j)]
        priority_member(cs, i, p) && priority_member(cs, j, p) && locality_key_at(cs, i) == locality_key_at(
            cs,
            j,
        ) ==> locality_weight_at(cs, i) == locality_weight_at(cs, j)
}

/// Whether some locality at priority `p` weighs more than `u64` holds.
pub open spec fn locality_overflow<C: LocalityCandidate>(cs: Seq<C>, p: u32) -> bool {
    exists|i: int|
        priority_member(cs, i, p) && #[trigger] locality_total(cs, p, locality_key_at(cs, i), cs.len() as int)
            > u64::MAX
}

/// The traffic units of a locality: its serving share scaled by the
/// overprovisioning factor, and at least one unit when anything serves.
pub open spec fn availability_units(serving: int, total: int, factor: int) -> int {
    let units = spec_ratio_units(serving, total, factor);
    if serving > 0 && units < 1 {
        1
    } else {
        units
    }
}

/// The health-adjusted weight of locality `key` with configured weight
/// `weight`.
pub open spec fn locality_effective<C: LocalityCandidate>(
    cs: Seq<C>,
    p: u32,
    mode: PriorityMode,
    factor: u32,
    key: Seq<u8>,
    weight: u32,
) -> int {
    let n = cs.len() as int;
    weight * availability_units(locality_serving(cs, p, mode, key, n), locality_total(cs, p, key, n), factor as int)
}

/// Whether `ls` names the locality `key`.
pub open spec fn lists_locality(ls: Seq<(Seq<u8>, u32)>, key: Seq<u8>) -> bool {
    exists|k: int| 0 <= k < ls.len() && #[trigger] ls[k].0 == key
}

/// Whether `ls` lists each locality of priority `p` once, with the weight
/// that its members advertise.
pub open spec fn is_locality_list<C: LocalityCandidate>(cs: Seq<C>, p: u32, ls: Seq<(Seq<u8>, u32)>) -> bool {
    &&& forall|a: int, b: int| 0 <= a < b < ls.len() ==> #[trigger] ls[a].0 != #[trigger] ls[b].0
    &&& forall|a: int, b: int| 0 <= a < b < ls.len() ==> lex_less_from(#[trigger] ls[a].0, #[trigger] ls[b].0, 0)
    &&& forall|k: int| #![trigger ls[k]] 0 <= k < ls.len() ==> locality_total(cs, p, ls[k].0, cs.len() as int) > 0
    &&& forall|k: int, i: int|
        0 <= k < ls.len() && #[trigger] in_locality(cs, i, p, ls[k].0) ==> locality_weight_at(cs, i) == ls[k].1
    &&& forall|i: int| priority_member(cs, i, p) ==> #[trigger] lists_locality(ls, locality_key_at(cs, i))
}

/// The summed health-adjusted weight of the first `k` localities of `ls`.
pub open spec fn effective_sum<C: LocalityCandidate>(
    cs: Seq<C>,
    p: u32,
    mode: PriorityMode,
    factor: u32,
    ls: Seq<(Seq<u8>, u32)>,
    k: int,
) -> int
    decreases k,
{
    if k <= 0 {
        0
    } else {
        effective_sum(cs, p, mode, factor, ls, k - 1) + locality_effective(cs, p, mode, factor, ls[k - 1].0, ls[k - 1].1)
    }
}

/// Lexicographic order of byte strings, compared from index `i` on.
pub open spec fn lex_less_from(a: Seq<u8>, b: Seq<u8>, i: int) -> bool
    decreases a.len() - i,
{
    if i >= a.len() {
        i < b.len()
    } else if i >= b.len() {
        false
    } else if a[i] != b[i] {
        a[i] < b[i]
    } else {
        lex_less_from(a, b, i + 1)
    }
}

/// Compares two byte strings lexicographically.
fn bytes_less(a: &[u8], b: &[u8]) -> (r: bool)
    ensures
        r == lex_less_from(a@, b@, 0),
{
    let n = if a.len() < b.len() {
        a.len()
    } else {
        b.len()
    };
    let mut i: usize = 0;
    while i < n
        invariant
            n <= a@.len(),
            n <= b@.len(),
            n == a@.len() || n == b@.len(),
            i <= n,
            lex_less_from(a@, b@, 0) == lex_less_from(a@, b@, i as int),
        decreases n - i,
    {
        if a[i] != b[i] {
            return a[i] < b[i];
        }
        i = i + 1;
    }
    a.len() < b.len()
}

/// The running sums of one locality while candidates are scanned.
#[derive(Clone, Copy)]
struct LocalityTally {
    rep: usize,
    configured: Weight,
    total: u128,
    serving: u128,
}

/// Whether `t` describes locality `key` after the first `i` candidates.
spec fn tally_matches<C: LocalityCandidate>(
    cs: Seq<C>,
    p: u32,
    mode: PriorityMode,
    i: int,
    key: Seq<u8>,
    t: LocalityTally,
) -> bool {
    &&& t.rep < i
    &&& in_locality(cs, t.rep as int, p, key)
    &&& locality_weight_at(cs, t.rep as int) == t.configured@
    &&& t.total == locality_total(cs, p, key, i)
    &&& t.serving == locality_serving(cs, p, mode, key, i)
    &&& 0 < t.total <= i * 0xffff_ffff
    &&& t.serving <= t.total
    &&& forall|m: int| 0 <= m < i && #[trigger] in_locality(cs, m, p, key) ==> locality_weight_at(cs, m) == t.configured@
}

proof fn lemma_lex_total(a: Seq<u8>, b: Seq<u8>, i: int)
    requires
        0 <= i,
        i <= a.len(),
        i <= b.len(),
        forall|j: int| 0 <= j < i ==> a[j] == b[j],
        a != b,
    ensures
        lex_less_from(a, b, i) || lex_less_from(b, a, i),
    decreases a.len() - i,
{
    if i >= a.len() && i >= b.len() {
        assert(a =~= b);
    } else if i < a.len() && i < b.len() && a[i] == b[i] {
        lemma_lex_total(a, b, i + 1);
    }
}

proof fn lemma_lex_trans(a: Seq<u8>, b: Seq<u8>, c: Seq<u8>, i: int)
    requires
        0 <= i,
        lex_less_from(a, b, i),
        lex_less_from(b, c, i),
    ensures
        lex_less_from(a, c, i),
    decreases a.len() - i,
{
    if i < a.len() && i < b.len() && i < c.len() && a[i] == b[i] && b[i] == c[i] {
        lemma_lex_trans(a, b, c, i + 1);
    }
}

proof fn lemma_lex_irreflexive(a: Seq<u8>, i: int)
    requires
        0 <= i,
    ensures
        !lex_less_from(a, a, i),
    decreases a.len() - i,
{
    if i < a.len() {
        lemma_lex_irreflexive(a, i + 1);
    }
}

/// Byte strings where `a` sorts first are not where `b` sorts first.
proof fn lemma_lex_asymmetric(a: Seq<u8>, b: Seq<u8>)
    requires
        lex_less_from(a, b, 0),
    ensures
        !lex_less_from(b, a, 0),
{
    if lex_less_from(b, a, 0) {
        lemma_lex_trans(a, b, a, 0);
        lemma_lex_irreflexive(a, 0);
    }
}

proof fn lemma_be32_less(x: u32, y: u32)
    requires
        x < y,
    ensures
        lex_less_from(be_bytes_u32(x), be_bytes_u32(y), 0),
{
    reveal_with_fuel(lex_less_from, 5);
    assert(((x >> 24u32) as u8) > ((y >> 24u32) as u8) ==> x > y) by (bit_vector);
    assert(((x >> 24u32) as u8) == ((y >> 24u32) as u8) && ((x >> 16u32) as u8) > ((y >> 16u32) as u8) ==> x > y)
        by (bit_vector);
    assert(((x >> 24u32) as u8) == ((y >> 24u32) as u8) && ((x >> 16u32) as u8) == ((y >> 16u32) as u8)
        && ((x >> 8u32) as u8) > ((y >> 8u32) as u8) ==> x > y) by (bit_vector);
    assert(((x >> 24u32) as u8) == ((y >> 24u32) as u8) && ((x >> 16u32) as u8) == ((y >> 16u32) as u8)
        && ((x >> 8u32) as u8) == ((y >> 8u32) as u8) && (x as u8) >= (y as u8) ==> x >= y) by (bit_vector);
}

/// Localities keyed by `u32` sort in the order of their values.
pub proof fn lemma_u32_localities_sort_by_value(x: u32, y: u32)
    ensures
        x < y <==> lex_less_from(x.order_bytes(), y.order_bytes(), 0),
{
    if x < y {
        lemma_be32_less(x, y);
    } else if y < x {
        lemma_be32_less(y, x);
        lemma_lex_asymmetric(y.order_bytes(), x.order_bytes());
    } else {
        lemma_lex_irreflexive(x.order_bytes(), 0);
    }
}

proof fn lemma_be64_less(x: u64, y: u64)
    requires
        x < y,
    ensures
        lex_less_from(be_bytes_u64(x), be_bytes_u64(y), 0),
{
    reveal_with_fuel(lex_less_from, 9);
    assert(((x >> 56u64) as u8) > ((y >> 56u64) as u8)
        ==> x > y) by (bit_vector);
    assert(((x >> 56u64) as u8) == ((y >> 56u64) as u8)
        && ((x >> 48u64) as u8) > ((y >> 48u64) as u8)
        ==> x > y) by (bit_vector);
    assert(((x >> 56u64) as u8) == ((y >> 56u64) as u8)
        && ((x >> 48u64) as u8) == ((y >> 48u64) as u8)
        && ((x >> 40u64) as u8) > ((y >> 40u64) as u8)
        ==> x > y) by (bit_vector);
    assert(((x >> 56u64) as u8) == ((y >> 56u64) as u8)
        && ((x >> 48u64) as u8) == ((y >> 48u64) as u8)
        && ((x >> 40u64) as u8) == ((y >> 40u64) as u8)
        && ((x >> 32u64) as u8) > ((y >> 32u64) as u8)
        ==> x > y) by (bit_vector);
    assert(((x >> 56u64) as u8) == ((y >> 56u64) as u8)
        && ((x >> 48u64) as u8) == ((y >> 48u64) as u8)
        && ((x >> 40u64) as u8) == ((y >> 40u64) as u8)
        && ((x >> 32u64) as u8) == ((y >> 32u64) as u8)
        && ((x >> 24u64) as u8) > ((y >> 24u64) as u8)
        ==> x > y) by (bit_vector);
    assert(((x >> 56u64) as u8) == ((y >> 56u64) as u8)
        && ((x >> 48u64) as u8) == ((y >> 48u64) as u8)
        && ((x >> 40u64) as u8) == ((y >> 40u64) as u8)
        && ((x >> 32u64) as u8) == ((y >> 32u64) as u8)
        && ((x >> 24u64) as u8) == ((y >> 24u64) as u8)
        && ((x >> 16u64) as u8) > ((y >> 16u64) as u8)
        ==> x > y) by (bit_vector);
    assert(((x >> 56u64) as u8) == ((y >> 56u64) as u8)
        && ((x >> 48u64) as u8) == ((y >> 48u64) as u8)
        && ((x >> 40u64) as u8) == ((y >> 40u64) as u8)
        && ((x >> 32u64) as u8) == ((y >> 32u64) as u8)
        && ((x >> 24u64) as u8) == ((y >> 24u64) as u8)
        && ((x >> 16u64) as u8) == ((y >> 16u64) as u8)
        && ((x >> 8u64) as u8) > ((y >> 8u64) as u8)
        ==> x > y) by (bit_vector);
    assert(((x >> 56u64) as u8) == ((y >> 56u64) as u8)
        && ((x >> 48u64) as u8) == ((y >> 48u64) as u8)
        && ((x >> 40u64) as u8) == ((y >> 40u64) as u8)
        && ((x >> 32u64) as u8) == ((y >> 32u64) as u8)
        && ((x >> 24u64) as u8) == ((y >> 24u64) as u8)
        && ((x >> 16u64) as u8) == ((y >> 16u64) as u8)
        && ((x >> 8u64) as u8) == ((y >> 8u64) as u8)
        && (x as u8) >= (y as u8)
        ==> x >= y) by (bit_vector);
}

/// Localities keyed by `u64` sort in the order of their values.
pub proof fn lemma_u64_localities_sort_by_value(x: u64, y: u64)
    ensures
        x < y <==> lex_less_from(x.order_bytes(), y.order_bytes(), 0),
{
    if x < y {
        lemma_be64_less(x, y);
    } else if y < x {
        lemma_be64_less(y, x);
        lemma_lex_asymmetric(y.order_bytes(), x.order_bytes());
    } else {
        lemma_lex_irreflexive(x.order_bytes(), 0);
    }
}

/// Localities keyed by `usize` sort in the order of their values.
pub proof fn lemma_usize_localities_sort_by_value(x: usize, y: usize)
    ensures
        x < y <==> lex_less_from(x.order_bytes(), y.order_bytes(), 0),
{
    lemma_u64_localities_sort_by_value(x as u64, y as u64);
}

/// Localities keyed by `i32` sort in the order of their values, negative
/// values first.
pub proof fn lemma_i32_localities_sort_by_value(x: i32, y: i32)
    ensures
        x < y <==> lex_less_from(x.order_bytes(), y.order_bytes(), 0),
{
    let fx = (x as u32) ^ 0x8000_0000u32;
    let fy = (y as u32) ^ 0x8000_0000u32;
    assert(x < y <==> ((x as u32) ^ 0x8000_0000u32) < ((y as u32) ^ 0x8000_0000u32)) by (bit_vector);
    lemma_u32_localities_sort_by_value(fx, fy);
}

/// Localities keyed by `i64` sort in the order of their values, negative
/// values first.
pub proof fn lemma_i64_localities_sort_by_value(x: i64, y: i64)
    ensures
        x < y <==> lex_less_from(x.order_bytes(), y.order_bytes(), 0),
{
    let fx = (x as u64) ^ 0x8000_0000_0000_0000u64;
    let fy = (y as u64) ^ 0x8000_0000_0000_0000u64;
    assert(x < y <==> ((x as u64) ^ 0x8000_0000_0000_0000u64) < ((y as u64) ^ 0x8000_0000_0000_0000u64))
        by (bit_vector);
    lemma_u64_localities_sort_by_value(fx, fy);
}

/// Whether some entry of `keys` is `key`.
spec fn key_listed(keys: Seq<Vec<u8>>, key: Seq<u8>) -> bool {
    exists|k: int| 0 <= k < keys.len() && #[trigger] keys[k]@ == key
}

/// Whether `keys` and `ts` describe the localities of priority `p` among the
/// first `i` candidates, one entry per locality.
spec fn tallies_describe<C: LocalityCandidate>(
    cs: Seq<C>,
    p: u32,
    mode: PriorityMode,
    i: int,
    keys: Seq<Vec<u8>>,
    ts: Seq<LocalityTally>,
) -> bool {
    &&& keys.len() == ts.len()
    &&& forall|a: int, b: int| 0 <= a < b < keys.len() ==> #[trigger] keys[a]@ != #[trigger] keys[b]@
    &&& forall|a: int, b: int| 0 <= a < b < keys.len() ==> lex_less_from(#[trigger] keys[a]@, #[trigger] keys[b]@, 0)
    &&& forall|k: int| 0 <= k < keys.len() ==> #[trigger] tally_matches(cs, p, mode, i, keys[k]@, ts[k])
    &&& forall|m: int| 0 <= m < i && priority_member(cs, m, p) ==> #[trigger] key_listed(keys, locality_key_at(cs, m))
}

proof fn lemma_tally_skip<C: LocalityCandidate>(
    cs: Seq<C>,
    p: u32,
    mode: PriorityMode,
    i: int,
    key: Seq<u8>,
    t: LocalityTally,
)
    requires
        0 <= i < cs.len(),
        tally_matches(cs, p, mode, i, key, t),
        !in_locality(cs, i, p, key),
    ensures
        tally_matches(cs, p, mode, i + 1, key, t),
{
}

proof fn lemma_tally_add<C: LocalityCandidate>(
    cs: Seq<C>,
    p: u32,
    mode: PriorityMode,
    i: int,
    key: Seq<u8>,
    t: LocalityTally,
    u: LocalityTally,
)
    requires
        0 <= i < cs.len(),
        tally_matches(cs, p, mode, i, key, t),
        in_locality(cs, i, p, key),
        0 < weight_at(cs, i) <= 0xffff_ffff,
        locality_weight_at(cs, i) == t.configured@,
        u.rep == t.rep,
        u.configured == t.configured,
        u.total == t.total + weight_at(cs, i),
        u.serving == t.serving + if in_scope(cs, i, p, mode) {
            weight_at(cs, i)
        } else {
            0
        },
    ensures
        tally_matches(cs, p, mode, i + 1, key, u),
{
}

proof fn lemma_absent_locality<C: LocalityCandidate>(cs: Seq<C>, p: u32, mode: PriorityMode, key: Seq<u8>, i: int)
    requires
        0 <= i <= cs.len(),
        forall|m: int| 0 <= m < i ==> !#[trigger] in_locality(cs, m, p, key),
    ensures
        locality_total(cs, p, key, i) == 0,
        locality_serving(cs, p, mode, key, i) == 0,
    decreases i,
{
    if i > 0 {
        lemma_absent_locality(cs, p, mode, key, i - 1);
        assert(!in_locality(cs, i - 1, p, key));
    }
}

proof fn lemma_listed_after_insert(keys: Seq<Vec<u8>>, pos: int, v: Vec<u8>, key: Seq<u8>)
    requires
        0 <= pos <= keys.len(),
        key_listed(keys, key),
    ensures
        key_listed(keys.insert(pos, v), key),
{
    let k = choose|k: int| 0 <= k < keys.len() && #[trigger] keys[k]@ == key;
    keys.insert_ensures(pos, v);
    if k < pos {
        assert(keys.insert(pos, v)[k]@ == key);
    } else {
        assert(keys.insert(pos, v)[k + 1]@ == key);
    }
}

/// Finds the entry of `keys` equal to `key`.
fn find_key(keys: &Vec<Vec<u8>>, key: &Vec<u8>) -> (r: Option<usize>)
    ensures
        r matches Some(k) ==> k < keys@.len() && keys@[k as int]@ == key@,
        r is None ==> forall|k: int| 0 <= k < keys@.len() ==> #[trigger] keys@[k]@ != key@,
{
    let n = keys.len();
    let mut k: usize = 0;
    while k < n
        invariant
            n == keys@.len(),
            k <= n,
            forall|j: int| 0 <= j < k ==> #[trigger] keys@[j]@ != key@,
        decreases n - k,
    {
        if bytes_equal(keys[k].as_slice(), key.as_slice()) {
            return Some(k);
        }
        k = k + 1;
    }
    None
}

/// The position before the first entry of `keys` that sorts after `key`.
fn insertion_point(keys: &Vec<Vec<u8>>, key: &Vec<u8>) -> (pos: usize)
    ensures
        pos <= keys@.len(),
        forall|j: int| 0 <= j < pos ==> !lex_less_from(key@, #[trigger] keys@[j]@, 0),
        pos < keys@.len() ==> lex_less_from(key@, keys@[pos as int]@, 0),
{
    let n = keys.len();
    let mut j: usize = 0;
    while j < n
        invariant
            n == keys@.len(),
            j <= n,
            forall|i: int| 0 <= i < j ==> !lex_less_from(key@, #[trigger] keys@[i]@, 0),
        decreases n - j,
    {
        if bytes_less(key.as_slice(), keys[j].as_slice()) {
            return j;
        }
        j = j + 1;
    }
    n
}

/// Groups the members of priority `p` by locality, in ascending order of the
/// locality encodings, summing each locality's total endpoint weight and the
/// weight that serves `mode`.
fn calculate_localities<C: LocalityCandidate>(candidates: &[C], p: u32, mode: PriorityMode) -> (r: Result<
    (Vec<Vec<u8>>, Vec<LocalityTally>),
    PickError,
>)
    ensures
        r is Err <==> !consistent_localities(candidates@, p),
        r is Err ==> r == Err::<(Vec<Vec<u8>>, Vec<LocalityTally>), PickError>(PickError::InconsistentTopology),
        r matches Ok((keys, ts)) ==> tallies_describe(candidates@, p, mode, candidates@.len() as int, keys@, ts@),
{
    let ghost cs = candidates@;
    let n = candidates.len();
    let mut keys: Vec<Vec<u8>> = Vec::new();
    let mut tallies: Vec<LocalityTally> = Vec::new();
    let mut i: usize = 0;
    while i < n
        invariant
            n == cs.len(),
            cs == candidates@,
            i <= n,
            tallies_describe(cs, p, mode, i as int, keys@, tallies@),
        decreases n - i,
    {
        let c = &candidates[i];
        if c.is_priority_member() && c.priority() == p {
            let w = c.weight().get();
            let serves = match mode {
                PriorityMode::Healthy => c.is_eligible(),
                PriorityMode::Panic => c.is_panic_eligible(),
            };
            let key = c.locality().order_encode();
            let lw = c.locality_weight();
            let lw_value = lw.get();
            let added: u128 = if serves {
                w as u128
            } else {
                0
            };
            proof {
                assert(in_scope(cs, i as int, p, mode) == serves);
                assert(in_locality(cs, i as int, p, key@));
            }
            match find_key(&keys, &key) {
                Some(k) => {
                    let t = tallies[k];
                    proof {
                        assert(tally_matches(cs, p, mode, i as int, keys@[k as int]@, tallies@[k as int]));
                    }
                    if t.configured.get() != lw_value {
                        proof {
                            let r = t.rep as int;
                            assert(!(locality_weight_at(cs, i as int) == locality_weight_at(cs, r)));
                        }
                        return Err(PickError::InconsistentTopology);
                    }
                    let u = LocalityTally {
                        rep: t.rep,
                        configured: t.configured,
                        total: t.total + w as u128,
                        serving: t.serving + added,
                    };
                    let ghost old_ts = tallies@;
                    tallies.set(k, u);
                    proof {
                        assert forall|j: int| 0 <= j < keys@.len() implies #[trigger] tally_matches(
                            cs,
                            p,
                            mode,
                            i + 1,
                            keys@[j]@,
                            tallies@[j],
                        ) by {
                            assert(tally_matches(cs, p, mode, i as int, keys@[j]@, old_ts[j]));
                            if j == k {
                                lemma_tally_add(cs, p, mode, i as int, keys@[j]@, t, u);
                            } else {
                                assert(keys@[j]@ != keys@[k as int]@);
                                lemma_tally_skip(cs, p, mode, i as int, keys@[j]@, old_ts[j]);
                            }
                        }
                        assert forall|m: int| 0 <= m < i + 1 && priority_member(cs, m, p) implies #[trigger] key_listed(
                            keys@,
                            locality_key_at(cs, m),
                        ) by {
                            if m == i {
                                assert(keys@[k as int]@ == locality_key_at(cs, m));
                            }
                        }
                    }
                },
                None => {
                    let pos = insertion_point(&keys, &key);
                    let u = LocalityTally { rep: i, configured: lw, total: w as u128, serving: added };
                    proof {
                        assert forall|m: int| 0 <= m < i implies !#[trigger] in_locality(cs, m, p, key@) by {
                            if in_locality(cs, m, p, key@) {
                                assert(key_listed(keys@, locality_key_at(cs, m)));
                                let k = choose|k: int| 0 <= k < keys@.len() && #[trigger] keys@[k]@ == locality_key_at(cs, m);
                                assert(keys@[k]@ != key@);
                            }
                        }
                        lemma_absent_locality(cs, p, mode, key@, i as int);
                        assert(tally_matches(cs, p, mode, i + 1, key@, u));
                    }
                    let ghost old_keys = keys@;
                    let ghost old_ts = tallies@;
                    let ghost key_view = key@;
                    keys.insert(pos, key);
                    tallies.insert(pos, u);
                    proof {
                        old_keys.insert_ensures(pos as int, keys@[pos as int]);
                        old_ts.insert_ensures(pos as int, u);
                        assert(keys@[pos as int]@ == key_view);
                        assert forall|j: int| 0 <= j < keys@.len() implies #[trigger] tally_matches(
                            cs,
                            p,
                            mode,
                            i + 1,
                            keys@[j]@,
                            tallies@[j],
                        ) by {
                            if j < pos {
                                assert(tally_matches(cs, p, mode, i as int, old_keys[j]@, old_ts[j]));
                                assert(old_keys[j]@ != key_view);
                                lemma_tally_skip(cs, p, mode, i as int, old_keys[j]@, old_ts[j]);
                            } else if j > pos {
                                assert(tally_matches(cs, p, mode, i as int, old_keys[j - 1]@, old_ts[j - 1]));
                                assert(old_keys[j - 1]@ != key_view);
                                assert(keys@[j] == old_keys[j - 1]);
                                lemma_tally_skip(cs, p, mode, i as int, old_keys[j - 1]@, old_ts[j - 1]);
                            }
                        }
                        assert forall|a: int, b: int| 0 <= a < b < keys@.len() implies #[trigger] keys@[a]@
                            != #[trigger] keys@[b]@ by {
                            if a < pos && b > pos {
                                assert(keys@[b] == old_keys[b - 1]);
                            } else if a > pos {
                                assert(keys@[a] == old_keys[a - 1]);
                                assert(keys@[b] == old_keys[b - 1]);
                            }
                        }
                        assert forall|a: int, b: int| 0 <= a < b < keys@.len() implies lex_less_from(
                            #[trigger] keys@[a]@,
                            #[trigger] keys@[b]@,
                            0,
                        ) by {
                            if a < pos && b == pos {
                                assert(!lex_less_from(key_view, old_keys[a]@, 0));
                                assert(old_keys[a]@ != key_view);
                                lemma_lex_total(old_keys[a]@, key_view, 0);
                            } else if a < pos && b > pos {
                                assert(keys@[b] == old_keys[b - 1]);
                            } else if a == pos {
                                assert(keys@[b] == old_keys[b - 1]);
                                assert(lex_less_from(key_view, old_keys[pos as int]@, 0));
                                if b - 1 > pos {
                                    lemma_lex_trans(key_view, old_keys[pos as int]@, old_keys[b - 1]@, 0);
                                }
                            } else if b < pos {
                                assert(keys@[a] == old_keys[a]);
                                assert(keys@[b] == old_keys[b]);
                            } else {
                                assert(keys@[a] == old_keys[a - 1]);
                                assert(keys@[b] == old_keys[b - 1]);
                            }
                        }
                        assert forall|m: int| 0 <= m < i + 1 && priority_member(cs, m, p) implies #[trigger] key_listed(
                            keys@,
                            locality_key_at(cs, m),
                        ) by {
                            if m == i {
                                assert(keys@[pos as int]@ == locality_key_at(cs, m));
                            } else {
                                assert(key_listed(old_keys, locality_key_at(cs, m)));
                                lemma_listed_after_insert(old_keys, pos as int, keys@[pos as int], locality_key_at(cs, m));
                            }
                        }
                    }
                },
            }
        } else {
            proof {
                assert forall|j: int| 0 <= j < keys@.len() implies #[trigger] tally_matches(
                    cs,
                    p,
                    mode,
                    i + 1,
                    keys@[j]@,
                    tallies@[j],
                ) by {
                    assert(tally_matches(cs, p, mode, i as int, keys@[j]@, tallies@[j]));
                    lemma_tally_skip(cs, p, mode, i as int, keys@[j]@, tallies@[j]);
                }
            }
        }
        i = i + 1;
    }
    proof {
        assert forall|a: int, b: int|
            #![trigger locality_weight_at(cs, a), locality_weight_at(cs, b)]
            priority_member(cs, a, p) && priority_member(cs, b, p) && locality_key_at(cs, a) == locality_key_at(
                cs,
                b,
            ) implies locality_weight_at(cs, a) == locality_weight_at(cs, b) by {
            assert(key_listed(keys@, locality_key_at(cs, a)));
            let k = choose|k: int| 0 <= k < keys@.len() && #[trigger] keys@[k]@ == locality_key_at(cs, a);
            assert(tally_matches(cs, p, mode, n as int, keys@[k]@, tallies@[k]));
            assert(in_locality(cs, a, p, keys@[k]@));
            assert(in_locality(cs, b, p, keys@[k]@));
        }
    }
    Ok((keys, tallies))
}

proof fn lemma_locality_list<C: LocalityCandidate>(
    cs: Seq<C>,
    p: u32,
    mode: PriorityMode,
    keys: Seq<Vec<u8>>,
    ts: Seq<LocalityTally>,
    ls: Seq<(Seq<u8>, u32)>,
)
    requires
        tallies_describe(cs, p, mode, cs.len() as int, keys, ts),
        ls.len() == keys.len(),
        forall|k: int| 0 <= k < ls.len() ==> #[trigger] ls[k] == (keys[k]@, ts[k].configured@),
    ensures
        is_locality_list(cs, p, ls),
{
    assert forall|k: int| #![trigger ls[k]] 0 <= k < ls.len() implies locality_total(cs, p, ls[k].0, cs.len() as int) > 0 by {
        assert(ls[k] == (keys[k]@, ts[k].configured@));
        assert(tally_matches(cs, p, mode, cs.len() as int, keys[k]@, ts[k]));
    }
    assert forall|k: int, i: int| 0 <= k < ls.len() && #[trigger] in_locality(cs, i, p, ls[k].0) implies locality_weight_at(cs, i) == ls[k].1 by {
        assert(ls[k] == (keys[k]@, ts[k].configured@));
        assert(tally_matches(cs, p, mode, cs.len() as int, keys[k]@, ts[k]));
    }
    assert forall|i: int| priority_member(cs, i, p) implies #[trigger] lists_locality(ls, locality_key_at(cs, i)) by {
        assert(key_listed(keys, locality_key_at(cs, i)));
        let k = choose|k: int| 0 <= k < keys.len() && #[trigger] keys[k]@ == locality_key_at(cs, i);
        assert(ls[k] == (keys[k]@, ts[k].configured@));
        assert(ls[k].0 == locality_key_at(cs, i));
    }
    assert forall|a: int, b: int| 0 <= a < b < ls.len() implies #[trigger] ls[a].0 != #[trigger] ls[b].0 by {
        assert(ls[a] == (keys[a]@, ts[a].configured@));
        assert(ls[b] == (keys[b]@, ts[b].configured@));
        assert(keys[a]@ != keys[b]@);
    }
    assert forall|a: int, b: int| 0 <= a < b < ls.len() implies lex_less_from(#[trigger] ls[a].0, #[trigger] ls[b].0, 0) by {
        assert(ls[a] == (keys[a]@, ts[a].configured@));
        assert(ls[b] == (keys[b]@, ts[b].configured@));
        assert(lex_less_from(keys[a]@, keys[b]@, 0));
    }
}

/// Whether the draw over the members of locality `key` serving priority `p`
/// in `mode` lands on `i` for `ticket`, their endpoint weights laid end to
/// end in slice order.
pub open spec fn locality_ticket_owner<C: LocalityCandidate>(
    cs: Seq<C>,
    p: u32,
    mode: PriorityMode,
    key: Seq<u8>,
    ticket: int,
    i: int,
) -> bool {
    &&& in_scope(cs, i, p, mode)
    &&& locality_key_at(cs, i) == key
    &&& locality_serving(cs, p, mode, key, i) <= ticket < locality_serving(cs, p, mode, key, i + 1)
}

/// Finds the member of locality `key` serving priority `p` in `mode` that
/// owns `ticket` when their endpoint weights are laid end to end in slice
/// order.
pub fn select_in_locality<C: LocalityCandidate>(
    candidates: &[C],
    p: u32,
    mode: PriorityMode,
    key: &Vec<u8>,
    ticket: u64,
) -> (i: usize)
    requires
        ticket < locality_serving(candidates@, p, mode, key@, candidates@.len() as int),
    ensures
        i < candidates@.len(),
        locality_ticket_owner(candidates@, p, mode, key@, ticket as int, i as int),
{
    let n = candidates.len();
    let mut rest = ticket;
    let mut index: usize = 0;
    while index < n
        invariant
            n == candidates@.len(),
            index <= n,
            ticket < locality_serving(candidates@, p, mode, key@, n as int),
            locality_serving(candidates@, p, mode, key@, index as int) <= ticket,
            rest == ticket - locality_serving(candidates@, p, mode, key@, index as int),
        decreases n - index,
    {
        let c = &candidates[index];
        let serves = c.is_priority_member() && c.priority() == p && match mode {
            PriorityMode::Healthy => c.is_eligible(),
            PriorityMode::Panic => c.is_panic_eligible(),
        };
        if serves {
            let encoded = c.locality().order_encode();
            if bytes_equal(encoded.as_slice(), key.as_slice()) {
                let weight = c.weight().get() as u64;
                if rest < weight {
                    return index;
                }
                rest = rest - weight;
            }
        }
        index = index + 1;
    }
    0
}

proof fn lemma_effective_sum_mono<C: LocalityCandidate>(
    cs: Seq<C>,
    p: u32,
    mode: PriorityMode,
    factor: u32,
    ls: Seq<(Seq<u8>, u32)>,
    a: int,
    b: int,
)
    requires
        0 <= a <= b <= ls.len(),
        forall|j: int| 0 <= j < ls.len() ==> locality_effective(cs, p, mode, factor, #[trigger] ls[j].0, ls[j].1) >= 0,
    ensures
        effective_sum(cs, p, mode, factor, ls, a) <= effective_sum(cs, p, mode, factor, ls, b),
    decreases b - a,
{
    if a < b {
        lemma_effective_sum_mono(cs, p, mode, factor, ls, a, b - 1);
    }
}

/// Whether decision `d` selected a member serving priority `p` in `mode`,
/// reporting its locality's configured and health-adjusted weights.
pub open spec fn decision_fits<C: LocalityCandidate>(
    cs: Seq<C>,
    p: u32,
    mode: PriorityMode,
    factor: u32,
    d: LocalityDecision,
) -> bool {
    let i = d.spec_selection()@ as int;
    &&& d.spec_priority() == p
    &&& d.spec_mode() == mode
    &&& in_scope(cs, i, p, mode)
    &&& d.spec_locality_weight()@ == locality_weight_at(cs, i)
    &&& d.spec_effective() == locality_effective(cs, p, mode, factor, locality_key_at(cs, i), locality_weight_at(cs, i))
    &&& d.spec_effective() > 0
}

/// What holds of every draw over the locality list `ls`: errors by the sum
/// of health-adjusted weights, else a member of a locality with positive
/// health-adjusted weight.
pub open spec fn effective_outcome<C: LocalityCandidate>(
    cs: Seq<C>,
    p: u32,
    mode: PriorityMode,
    factor: u32,
    ls: Seq<(Seq<u8>, u32)>,
    r: Result<LocalityDecision, PickError>,
) -> bool {
    let total = effective_sum(cs, p, mode, factor, ls, ls.len() as int);
    &&& total > u64::MAX ==> r == Err::<LocalityDecision, PickError>(PickError::WeightOverflow)
    &&& total == 0 ==> r == Err::<LocalityDecision, PickError>(PickError::NoEligibleCandidates)
    &&& 0 < total <= u64::MAX ==> r is Ok
    &&& r matches Ok(d) ==> decision_fits(cs, p, mode, factor, d)
    &&& r matches Ok(d) ==> exists|ticket: int, k: int|
        0 <= ticket < total && #[trigger] ticket_locality(cs, p, mode, factor, ls, ticket, k) && in_locality(
            cs,
            d.spec_selection()@ as int,
            p,
            ls[k].0,
        ) && exists|endpoint: int|
            0 <= endpoint < locality_serving(cs, p, mode, ls[k].0, cs.len() as int)
                && #[trigger] locality_ticket_owner(cs, p, mode, ls[k].0, endpoint, d.spec_selection()@ as int)
}

/// Whether `ticket` lands on the locality at `k` of `ls` when their
/// health-adjusted weights are laid end to end in list order.
pub open spec fn ticket_locality<C: LocalityCandidate>(
    cs: Seq<C>,
    p: u32,
    mode: PriorityMode,
    factor: u32,
    ls: Seq<(Seq<u8>, u32)>,
    ticket: int,
    k: int,
) -> bool {
    &&& 0 <= k < ls.len()
    &&& effective_sum(cs, p, mode, factor, ls, k) <= ticket < effective_sum(cs, p, mode, factor, ls, k + 1)
}

/// The selection a locality decision reports, or its error.
pub open spec fn decision_selection(r: Result<LocalityDecision, PickError>) -> Result<Selection, PickError> {
    match r {
        Ok(d) => Ok(d.spec_selection()),
        Err(e) => Err(e),
    }
}

/// What holds of the locality stage after the priority stage produced `s`.
pub open spec fn locality_outcome<C: LocalityCandidate>(
    cs: Seq<C>,
    config: PriorityConfig,
    s: Result<(u32, PriorityMode), PickError>,
    r: Result<LocalityDecision, PickError>,
) -> bool {
    match s {
        Err(e) => r == Err::<LocalityDecision, PickError>(e),
        Ok((p, mode)) => {
            let factor = config.spec_overprovisioning();
            &&& !consistent_localities(cs, p) ==> r == Err::<LocalityDecision, PickError>(
                PickError::InconsistentTopology,
            )
            &&& consistent_localities(cs, p) && locality_overflow(cs, p) ==> r == Err::<
                LocalityDecision,
                PickError,
            >(PickError::WeightOverflow)
            &&& consistent_localities(cs, p) && !locality_overflow(cs, p) ==> exists|ls: Seq<(Seq<u8>, u32)>|
                #[trigger] is_locality_list(cs, p, ls) && effective_outcome(cs, p, mode, factor, ls, r)
        },
    }
}

/// The localities of priority `p` as a list: each key with its configured
/// weight, in the order of the keys.
spec fn keys_list(keys: Seq<Vec<u8>>, ts: Seq<LocalityTally>) -> Seq<(Seq<u8>, u32)> {
    Seq::new(keys.len(), |k: int| (keys[k]@, ts[k].configured@))
}

/// Whether the tallies and health-adjusted weights describe the locality
/// list of priority `p`, with `sum` the total weight.
spec fn weights_fit<C: LocalityCandidate>(
    cs: Seq<C>,
    p: u32,
    mode: PriorityMode,
    factor: u32,
    keys: Seq<Vec<u8>>,
    ts: Seq<LocalityTally>,
    effs: Seq<u64>,
    sum: u64,
) -> bool {
    let ls = keys_list(keys, ts);
    let g = keys.len() as int;
    let n = cs.len() as int;
    &&& ts.len() == g
    &&& effs.len() == g
    &&& is_locality_list(cs, p, ls)
    &&& consistent_localities(cs, p)
    &&& !locality_overflow(cs, p)
    &&& forall|j: int| 0 <= j < g ==> #[trigger] tally_matches(cs, p, mode, n, ls[j].0, ts[j])
    &&& forall|j: int| 0 <= j < g ==> keys[j]@ == #[trigger] ls[j].0
    &&& forall|j: int| 0 <= j < g ==> #[trigger] effs[j] == locality_effective(cs, p, mode, factor, ls[j].0, ls[j].1)
    &&& forall|j: int| 0 <= j < g ==> #[trigger] effs[j] > 0 ==> ts[j].serving > 0
    &&& forall|j: int| 0 <= j <= g ==> #[trigger] seq_prefix(effs, j) == effective_sum(cs, p, mode, factor, ls, j)
    &&& sum == seq_prefix(effs, g)
}

proof fn lemma_prefix_effective<C: LocalityCandidate>(
    cs: Seq<C>,
    p: u32,
    mode: PriorityMode,
    factor: u32,
    ls: Seq<(Seq<u8>, u32)>,
    effs: Seq<u64>,
    j: int,
)
    requires
        0 <= j <= effs.len(),
        effs.len() == ls.len(),
        forall|i: int| 0 <= i < effs.len() ==> #[trigger] effs[i] == locality_effective(cs, p, mode, factor, ls[i].0, ls[i].1),
    ensures
        seq_prefix(effs, j) == effective_sum(cs, p, mode, factor, ls, j),
    decreases j,
{
    if j > 0 {
        lemma_prefix_effective(cs, p, mode, factor, ls, effs, j - 1);
        assert(effs[j - 1] == locality_effective(cs, p, mode, factor, ls[j - 1].0, ls[j - 1].1));
    }
}

/// Tallies the localities of priority `p` and their health-adjusted
/// weights, or reports the error that comes before any draw.
fn locality_weights<C: LocalityCandidate>(candidates: &[C], p: u32, mode: PriorityMode, factor: u32) -> (r: Result<
    (Vec<Vec<u8>>, Vec<LocalityTally>, Vec<u64>, u64),
    PickError,
>)
    ensures
        ({
            let cs = candidates@;
            &&& !consistent_localities(cs, p) ==> r == Err::<(Vec<Vec<u8>>, Vec<LocalityTally>, Vec<u64>, u64), PickError>(
                PickError::InconsistentTopology,
            )
            &&& consistent_localities(cs, p) && locality_overflow(cs, p) ==> r == Err::<
                (Vec<Vec<u8>>, Vec<LocalityTally>, Vec<u64>, u64),
                PickError,
            >(PickError::WeightOverflow)
            &&& consistent_localities(cs, p) && !locality_overflow(cs, p) ==> exists|ls: Seq<(Seq<u8>, u32)>|
                #[trigger] is_locality_list(cs, p, ls) && (effective_sum(cs, p, mode, factor, ls, ls.len() as int)
                    > u64::MAX ==> r == Err::<(Vec<Vec<u8>>, Vec<LocalityTally>, Vec<u64>, u64), PickError>(
                    PickError::WeightOverflow,
                )) && (effective_sum(cs, p, mode, factor, ls, ls.len() as int) <= u64::MAX ==> (r matches Ok(
                    (keys, ts, effs, sum),
                ) && keys_list(keys@, ts@) == ls))
            &&& r matches Ok((keys, ts, effs, sum)) ==> weights_fit(cs, p, mode, factor, keys@, ts@, effs@, sum)
        }),
{
        let ghost cs = candidates@;
        let n = candidates.len();
        let (keys, tallies) = match calculate_localities(candidates, p, mode) {
            Ok(x) => x,
            Err(e) => {
                return Err(e);
            },
        };
        let g = keys.len();
        let ghost ls = keys_list(keys@, tallies@);
        proof {
            assert forall|k: int| 0 <= k < ls.len() implies #[trigger] ls[k] == (keys@[k]@, tallies@[k].configured@) by {}
            lemma_locality_list(cs, p, mode, keys@, tallies@, ls);
            assert forall|k: int| 0 <= k < g implies #[trigger] tally_matches(cs, p, mode, n as int, ls[k].0, tallies@[k]) by {
                assert(tally_matches(cs, p, mode, n as int, keys@[k]@, tallies@[k]));
            }
            assert(consistent_localities(cs, p));
        }
        let mut effs: Vec<u64> = Vec::new();
        let mut k: usize = 0;
        while k < g
            invariant
                g == keys@.len(),
                g == tallies@.len(),
                g == ls.len(),
                n == cs.len(),
                cs == candidates@,
                forall|j: int| 0 <= j < g ==> #[trigger] tally_matches(cs, p, mode, n as int, ls[j].0, tallies@[j]),
                forall|j: int| 0 <= j < g ==> ls[j].1 == #[trigger] tallies@[j].configured@,
                k <= g,
                effs@.len() == k,
                forall|j: int|
                    0 <= j < k ==> #[trigger] effs@[j] == locality_effective(cs, p, mode, factor, ls[j].0, ls[j].1),
                forall|j: int| 0 <= j < k ==> #[trigger] tallies@[j].total <= u64::MAX,
                forall|j: int| 0 <= j < k ==> #[trigger] effs@[j] > 0 ==> tallies@[j].serving > 0,
                consistent_localities(cs, p),
                is_locality_list(cs, p, ls),
            decreases g - k,
        {
            let t = tallies[k];
            proof {
                assert(tally_matches(cs, p, mode, n as int, ls[k as int].0, t));
            }
            if t.total > 0xffff_ffff_ffff_ffff {
                proof {
                    assert(priority_member(cs, t.rep as int, p));
                    assert(locality_total(cs, p, locality_key_at(cs, t.rep as int), n as int) > u64::MAX);
                }
                return Err(PickError::WeightOverflow);
            }
            let total = t.total as u64;
            let serving = t.serving as u64;
            let units = ratio_units(serving, total, factor);
            let avail = if serving > 0 && units < 1 {
                1
            } else {
                units
            };
            proof {
                if serving == 0 {
                    assert((0int * factor as int * 1_000_000) / (total as int * 100) == 0) by (nonlinear_arith)
                        requires
                            total > 0,
                    ;
                }
            }
            let lw = t.configured.get();
            assert(lw as int * avail as int <= u64::MAX) by (nonlinear_arith)
                requires
                    lw <= u32::MAX,
                    avail <= 1_000_000,
            ;
            effs.push(lw as u64 * avail);
            k = k + 1;
        }
        proof {
            assert forall|i: int| priority_member(cs, i, p) implies #[trigger] locality_total(
                cs,
                p,
                locality_key_at(cs, i),
                n as int,
            ) <= u64::MAX by {
                assert(lists_locality(ls, locality_key_at(cs, i)));
                let j = choose|j: int| 0 <= j < ls.len() && #[trigger] ls[j].0 == locality_key_at(cs, i);
                assert(tally_matches(cs, p, mode, n as int, ls[j].0, tallies@[j]));
                assert(tallies@[j].total <= u64::MAX);
            }
            assert(!locality_overflow(cs, p));
            assert forall|j: int| 0 <= j < ls.len() implies locality_effective(
                cs,
                p,
                mode,
                factor,
                #[trigger] ls[j].0,
                ls[j].1,
            ) >= 0 by {
                assert(effs@[j] >= 0);
            }
        }
        let mut sum: u64 = 0;
        k = 0;
        while k < g
            invariant
                g == effs@.len(),
                g == ls.len(),
                forall|j: int|
                    0 <= j < g ==> #[trigger] effs@[j] == locality_effective(cs, p, mode, factor, ls[j].0, ls[j].1),
                forall|j: int| 0 <= j < ls.len() ==> locality_effective(cs, p, mode, factor, #[trigger] ls[j].0, ls[j].1) >= 0,
                k <= g,
                sum == seq_prefix(effs@, k as int),
                sum == effective_sum(cs, p, mode, factor, ls, k as int),
                cs == candidates@,
                consistent_localities(cs, p),
                !locality_overflow(cs, p),
                is_locality_list(cs, p, ls),
            decreases g - k,
        {
            sum = match sum.checked_add(effs[k]) {
                Some(s) => s,
                None => {
                    proof {
                        lemma_effective_sum_mono(cs, p, mode, factor, ls, k + 1, g as int);
                    }
                    return Err(PickError::WeightOverflow);
                },
            };
            k = k + 1;
        }
        proof {
            assert forall|j: int| 0 <= j <= g implies #[trigger] seq_prefix(effs@, j) == effective_sum(cs, p, mode, factor, ls, j) by {
                lemma_prefix_effective(cs, p, mode, factor, ls, effs@, j);
            }
            assert forall|j: int| 0 <= j < g implies keys@[j]@ == #[trigger] ls[j].0 by {}
            assert(weights_fit(cs, p, mode, factor, keys@, tallies@, effs@, sum));
        }
        Ok((keys, tallies, effs, sum))
}

/// Answers the locality of priority `p` that a draw of `ticket` lands on,
/// its localities laid end to end in key order by health-adjusted weight,
/// or the error that comes before any draw.
pub fn locality_for_ticket<C: LocalityCandidate>(
    candidates: &[C],
    config: PriorityConfig,
    p: u32,
    mode: PriorityMode,
    ticket: u64,
) -> (r: Result<Vec<u8>, PickError>)
    requires
        forall|ls: Seq<(Seq<u8>, u32)>|
            #[trigger] is_locality_list(candidates@, p, ls) ==> ticket < effective_sum(
                candidates@,
                p,
                mode,
                config.spec_overprovisioning(),
                ls,
                ls.len() as int,
            ),
    ensures
        ({
            let cs = candidates@;
            let factor = config.spec_overprovisioning();
            &&& !consistent_localities(cs, p) ==> r == Err::<Vec<u8>, PickError>(PickError::InconsistentTopology)
            &&& consistent_localities(cs, p) && locality_overflow(cs, p) ==> r == Err::<Vec<u8>, PickError>(
                PickError::WeightOverflow,
            )
            &&& consistent_localities(cs, p) && !locality_overflow(cs, p) ==> exists|ls: Seq<(Seq<u8>, u32)>|
                #[trigger] is_locality_list(cs, p, ls) && (effective_sum(cs, p, mode, factor, ls, ls.len() as int)
                    > u64::MAX ==> r == Err::<Vec<u8>, PickError>(PickError::WeightOverflow)) && (effective_sum(
                    cs,
                    p,
                    mode,
                    factor,
                    ls,
                    ls.len() as int,
                ) <= u64::MAX ==> (r matches Ok(key) && exists|k: int|
                    #[trigger] ticket_locality(cs, p, mode, factor, ls, ticket as int, k) && key@ == ls[k].0))
        }),
{
    let factor = config.overprovisioning_factor_percent();
    match locality_weights(candidates, p, mode, factor) {
        Ok((keys, tallies, effs, sum)) => {
            let ghost ls = keys_list(keys@, tallies@);
            proof {
                assert(weights_fit(candidates@, p, mode, factor, keys@, tallies@, effs@, sum));
                assert(ticket < effective_sum(candidates@, p, mode, factor, ls, ls.len() as int));
            }
            let chosen = ticket_owner(&effs, ticket);
            proof {
                assert(seq_prefix(effs@, chosen as int) == effective_sum(candidates@, p, mode, factor, ls, chosen as int));
                assert(seq_prefix(effs@, chosen + 1) == effective_sum(candidates@, p, mode, factor, ls, chosen + 1));
                assert(ticket_locality(candidates@, p, mode, factor, ls, ticket as int, chosen as int));
                assert(keys@[chosen as int]@ == ls[chosen as int].0);
            }
            Ok(keys[chosen].clone())
        },
        Err(e) => Err(e),
    }
}

/// Health-adjusted weighted routing across localities within a priority.
///
/// Selection follows a strict hierarchy: [`PriorityWeightedRandom`] first
/// chooses a priority and health mode; locality weights are then scaled by
/// the locality's available endpoint capacity; finally, endpoint weights
/// divide the chosen locality's traffic. A locality's capacity loss is
/// absorbed up to the overprovisioning factor, and any locality with a
/// serving member keeps at least one traffic unit.
pub struct LocalityWeightedRandom<L> {
    priority: PriorityWeightedRandom,
    locality: PhantomData<L>,
}

impl<L> LocalityWeightedRandom<L> {
    /// The priority and availability configuration.
    pub closed spec fn spec_config(&self) -> PriorityConfig {
        self.priority.spec_config()
    }

    /// The generator.
    pub closed spec fn spec_rng(&self) -> StdRng {
        self.priority.spec_rng()
    }

    /// Creates a policy seeded from the operating system.
    pub fn new(config: PriorityConfig) -> (p: Self)
        ensures
            p.spec_config() == config,
    {
        LocalityWeightedRandom { priority: PriorityWeightedRandom::new(config), locality: PhantomData }
    }

    /// Creates a reproducible policy with the default configuration.
    pub fn seeded(seed: u64) -> (p: Self)
        ensures
            p.spec_config().spec_overprovisioning() == DEFAULT_OVERPROVISIONING_FACTOR_PERCENT,
            p.spec_config().spec_panic_threshold() == DEFAULT_PANIC_THRESHOLD_PERCENT,
            p.spec_config().spec_panic_mode() == PanicMode::UseAll,
    {
        LocalityWeightedRandom { priority: PriorityWeightedRandom::seeded(seed), locality: PhantomData }
    }

    /// Creates a reproducible policy with an explicit configuration.
    pub fn seeded_with(config: PriorityConfig, seed: u64) -> (p: Self)
        ensures
            p.spec_config() == config,
    {
        LocalityWeightedRandom { priority: PriorityWeightedRandom::seeded_with(config, seed), locality: PhantomData }
    }

    /// Creates a policy over the given generator.
    pub fn with_rng(config: PriorityConfig, rng: StdRng) -> (p: Self)
        ensures
            p.spec_config() == config,
            p.spec_rng() == rng,
    {
        LocalityWeightedRandom { priority: PriorityWeightedRandom::with_rng(config, rng), locality: PhantomData }
    }

    /// Returns the priority and availability configuration.
    pub fn config(&self) -> (c: PriorityConfig)
        ensures
            c == self.spec_config(),
    {
        self.priority.config()
    }

    /// Returns the generator.
    pub fn rng(&self) -> (r: &StdRng)
        ensures
            *r == self.spec_rng(),
    {
        self.priority.rng()
    }

    /// Returns the generator mutably.
    pub fn rng_mut(&mut self) -> (r: &mut StdRng)
        ensures
            *r == old(self).spec_rng(),
            final(self).spec_rng() == *final(r),
            final(self).spec_config() == old(self).spec_config(),
    {
        self.priority.rng_mut()
    }

    /// Decomposes the policy into its configuration and generator.
    pub fn into_parts(self) -> (r: (PriorityConfig, StdRng))
        ensures
            r.0 == self.spec_config(),
            r.1 == self.spec_rng(),
    {
        self.priority.into_parts()
    }
}

impl<L> Default for LocalityWeightedRandom<L> {
    fn default() -> (p: Self)
        ensures
            p.spec_config().spec_overprovisioning() == DEFAULT_OVERPROVISIONING_FACTOR_PERCENT,
            p.spec_config().spec_panic_threshold() == DEFAULT_PANIC_THRESHOLD_PERCENT,
            p.spec_config().spec_panic_mode() == PanicMode::UseAll,
    {
        LocalityWeightedRandom { priority: PriorityWeightedRandom::default(), locality: PhantomData }
    }
}

impl<L> LocalityWeightedRandom<L> {
    #[verifier::rlimit(50)]
    fn decide_in_scope<C: LocalityCandidate>(&mut self, candidates: &[C], p: u32, mode: PriorityMode) -> (r: Result<
        LocalityDecision,
        PickError,
    >)
        ensures
            final(self).spec_config() == old(self).spec_config(),
            locality_outcome(candidates@, old(self).spec_config(), Ok((p, mode)), r),
    {
        let ghost cs = candidates@;
        let ghost config = self.spec_config();
        let n = candidates.len();
        let factor = self.priority.config().overprovisioning_factor_percent();
        let (keys, tallies, effs, sum) = match locality_weights(candidates, p, mode, factor) {
            Ok(x) => x,
            Err(e) => {
                return Err(e);
            },
        };
        let g = keys.len();
        let ghost ls = keys_list(keys@, tallies@);
        proof {
            assert(weights_fit(cs, p, mode, factor, keys@, tallies@, effs@, sum));
        }
        if sum == 0 {
            proof {
                assert(effective_outcome(cs, p, mode, factor, ls, Err(PickError::NoEligibleCandidates)));
            }
            return Err(PickError::NoEligibleCandidates);
        }
        let ticket = self.priority.draw_below(sum);
        let chosen = ticket_owner(&effs, ticket);
        proof {
            assert(seq_prefix(effs@, chosen as int) == effective_sum(cs, p, mode, factor, ls, chosen as int));
            assert(seq_prefix(effs@, chosen + 1) == effective_sum(cs, p, mode, factor, ls, chosen + 1));
            assert(ticket_locality(cs, p, mode, factor, ls, ticket as int, chosen as int));
        }
        let t = tallies[chosen];
        proof {
            assert(effs@[chosen as int] > 0);
            assert(tally_matches(cs, p, mode, n as int, ls[chosen as int].0, t));
            assert(keys@[chosen as int]@ == ls[chosen as int].0);
        }
        let endpoint_ticket = self.priority.draw_below(t.serving as u64);
        let index = select_in_locality(candidates, p, mode, &keys[chosen], endpoint_ticket);
        let d = LocalityDecision {
            selection: Selection::new(index),
            priority: p,
            priority_mode: mode,
            locality_weight: t.configured,
            effective_locality_weight: effs[chosen],
        };
        proof {
            assert(in_locality(cs, index as int, p, ls[chosen as int].0));
            assert(locality_ticket_owner(cs, p, mode, ls[chosen as int].0, endpoint_ticket as int, index as int));
            assert(decision_fits(cs, p, mode, factor, d));
            assert(effective_outcome(cs, p, mode, factor, ls, Ok(d)));
        }
        Ok(d)
    }

    /// Selects an endpoint and reports the selected topology state.
    ///
    /// The priority stage runs first and its errors come back unchanged;
    /// then a locality of the chosen priority is drawn by health-adjusted
    /// weight, and a serving member of that locality by endpoint weight.
    pub fn decide<C: LocalityCandidate<Locality = L>>(&mut self, candidates: &[C]) -> (r: Result<
        LocalityDecision,
        PickError,
    >)
        ensures
            final(self).spec_config() == old(self).spec_config(),
            ({
                let cs = candidates@;
                let config = old(self).spec_config();
                &&& cs.len() == 0 ==> r == Err::<LocalityDecision, PickError>(PickError::Empty)
                &&& cs.len() > 0 && !any_member(cs) ==> r == Err::<LocalityDecision, PickError>(
                    PickError::NoEligibleCandidates,
                )
                &&& any_member(cs) && group_overflow(cs) ==> r == Err::<LocalityDecision, PickError>(
                    PickError::WeightOverflow,
                )
                &&& any_member(cs) && !group_overflow(cs) ==> exists|
                    gs: Seq<u32>,
                    s: Result<(u32, PriorityMode), PickError>,
                |
                    #![trigger is_group_list(cs, gs), scope_outcome(cs, gs, config, s)]
                    is_group_list(cs, gs) && scope_outcome(cs, gs, config, s) && locality_outcome(cs, config, s, r)
            }),
    {
        let ghost config = self.spec_config();
        let scope = self.priority.choose_scope(candidates);
        let ghost cs = candidates@;
        match scope {
            Err(e) => {
                proof {
                    if any_member(cs) && !group_overflow(cs) {
                        let gs = choose|gs: Seq<u32>| #[trigger] is_group_list(cs, gs) && scope_outcome(cs, gs, config, scope);
                        assert(locality_outcome(cs, config, scope, Err(e)));
                    }
                }
                Err(e)
            },
            Ok((p, mode)) => {
                let r = self.decide_in_scope(candidates, p, mode);
                proof {
                    if any_member(cs) && !group_overflow(cs) {
                        let gs = choose|gs: Seq<u32>| #[trigger] is_group_list(cs, gs) && scope_outcome(cs, gs, config, scope);
                        assert(locality_outcome(cs, config, scope, r));
                    }
                }
                r
            },
        }
    }
}

impl<C: LocalityCandidate<Locality = L>, Context: ?Sized, L> Policy<C, Context> for LocalityWeightedRandom<L> {
    open spec fn pick_outcome(
        &self,
        after: &Self,
        candidates: &[C],
        context: &Context,
        r: Result<Selection, PickError>,
    ) -> bool {
        &&& ({
            let cs = candidates@;
            &&& cs.len() == 0 ==> r == Err::<Selection, PickError>(PickError::Empty)
            &&& cs.len() > 0 && !any_member(cs) ==> r == Err::<Selection, PickError>(
                PickError::NoEligibleCandidates,
            )
            &&& any_member(cs) && group_overflow(cs) ==> r == Err::<Selection, PickError>(
                PickError::WeightOverflow,
            )
            &&& r matches Ok(s) ==> exists|p: u32, m: PriorityMode| #[trigger] in_scope(cs, s@ as int, p, m)
            &&& any_member(cs) && !group_overflow(cs) ==> exists|
                gs: Seq<u32>,
                scope: Result<(u32, PriorityMode), PickError>,
                d: Result<LocalityDecision, PickError>,
            |
                #![trigger is_group_list(cs, gs), scope_outcome(cs, gs, self.spec_config(), scope), locality_outcome(cs, self.spec_config(), scope, d)]
                is_group_list(cs, gs) && scope_outcome(cs, gs, self.spec_config(), scope) && locality_outcome(
                    cs,
                    self.spec_config(),
                    scope,
                    d,
                ) && r == decision_selection(d)
        })
        &&& after.spec_config() == self.spec_config()
    }

    /// Selects the member of [`LocalityWeightedRandom::decide`].
    fn pick(&mut self, candidates: &[C], context: &Context) -> (r: Result<Selection, PickError>) {
        let ghost config = self.spec_config();
        let decided = self.decide(candidates);
        let r = match decided {
            Ok(d) => Ok(d.selection()),
            Err(e) => Err(e),
        };
        proof {
            let cs = candidates@;
            if let Ok(d) = decided {
                assert(any_member(cs) && !group_overflow(cs));
                let (gs, s) = choose|gs: Seq<u32>, s: Result<(u32, PriorityMode), PickError>|
                    #![trigger is_group_list(cs, gs), scope_outcome(cs, gs, config, s)]
                    is_group_list(cs, gs) && scope_outcome(cs, gs, config, s) && locality_outcome(cs, config, s, decided);
                if let Ok((p, m)) = s {
                    assert(consistent_localities(cs, p));
                    assert(!locality_overflow(cs, p));
                    let ls = choose|ls: Seq<(Seq<u8>, u32)>|
                        #[trigger] is_locality_list(cs, p, ls) && effective_outcome(
                            cs,
                            p,
                            m,
                            config.spec_overprovisioning(),
                            ls,
                            decided,
                        );
                    assert(decision_fits(cs, p, m, config.spec_overprovisioning(), d));
                    assert(in_scope(cs, d.spec_selection()@ as int, p, m));
                    assert(r matches Ok(sel) && in_scope(cs, sel@ as int, p, m));
                }
            }
            if any_member(cs) && !group_overflow(cs) {
                let (gs, s) = choose|gs: Seq<u32>, s: Result<(u32, PriorityMode), PickError>|
                    #![trigger is_group_list(cs, gs), scope_outcome(cs, gs, config, s)]
                    is_group_list(cs, gs) && scope_outcome(cs, gs, config, s) && locality_outcome(cs, config, s, decided);
                assert(r == decision_selection(decided));
                assert(is_group_list(cs, gs) && scope_outcome(cs, gs, config, s) && locality_outcome(cs, config, s, decided)
                    && r == decision_selection(decided));
            }
            assert(r matches Ok(sel) ==> exists|p: u32, m: PriorityMode| #[trigger] in_scope(cs, sel@ as int, p, m));
        }
        r
    }
}

} // verus!
