use vstd::prelude::*;

use crate::backend::Candidate;
use crate::error::PickError;
use crate::hash::{
    FNV_OFFSET_BASIS, FnvBuildHasher, StableKey, bytes_equal, fnv1a, le_bytes_u64, lemma_fnv_concat, mix64, spec_fnv, spec_mix64,
};
use crate::selection::Selection;
use crate::sort::{SortKey, merge_sort, sorted_by};

use super::{Policy, eligible_at, eligible_keys_unique, find_duplicate_eligible, key_at};

verus! {

broadcast use vstd::seq_lib::group_to_multiset_ensures;

/// Memory and distribution policy for [`RingHash`].
#[derive(Clone, Copy, Debug, PartialEq, Eq, Structural, Hash)]
pub struct RingHashConfig {
    virtual_nodes_per_weight: u32,
    max_virtual_nodes: usize,
}

/// Invalid ring-hash configuration.
#[derive(Clone, Copy, Debug, PartialEq, Eq, Structural, Hash)]
pub enum RingHashConfigError {
    /// The cap cannot hold the points for one unit-weight candidate.
    UnitWeightExceedsCapacity,
}

impl RingHashConfigError {
    /// Describes the error.
    pub fn message(&self) -> (m: String)
        ensures
            m@ == "max virtual nodes must fit one unit-weight candidate"@,
    {
        String::from_str("max virtual nodes must fit one unit-weight candidate")
    }
}

impl RingHashConfig {
    #[verifier::type_invariant]
    spec fn config_valid(self) -> bool {
        &&& self.virtual_nodes_per_weight > 0
        &&& self.max_virtual_nodes > 0
    }

    /// Virtual nodes per unit of reduced weight.
    pub closed spec fn spec_virtual_nodes_per_weight(self) -> u32 {
        self.virtual_nodes_per_weight
    }

    /// The hard table-point limit.
    pub closed spec fn spec_max_virtual_nodes(self) -> usize {
        self.max_virtual_nodes
    }

    /// Creates a bounded virtual-node configuration.
    ///
    /// Candidate weights are divided by the eligible set's greatest common
    /// divisor, then multiplied by `virtual_nodes_per_weight`. Reconciliation
    /// fails before mutation if their total exceeds `max_virtual_nodes`.
    pub fn new(virtual_nodes_per_weight: u32, max_virtual_nodes: usize) -> (r: Result<
        Self,
        RingHashConfigError,
    >)
        requires
            virtual_nodes_per_weight > 0,
            max_virtual_nodes > 0,
        ensures
            r is Err <==> virtual_nodes_per_weight > max_virtual_nodes,
            r matches Ok(c) ==> c.spec_virtual_nodes_per_weight() == virtual_nodes_per_weight
                && c.spec_max_virtual_nodes() == max_virtual_nodes,
    {
        if virtual_nodes_per_weight as u64 > max_virtual_nodes as u64 {
            return Err(RingHashConfigError::UnitWeightExceedsCapacity);
        }
        Ok(RingHashConfig { virtual_nodes_per_weight, max_virtual_nodes })
    }

    /// Returns virtual nodes assigned per unit of candidate weight.
    pub fn virtual_nodes_per_weight(self) -> (n: u32)
        ensures
            n == self.spec_virtual_nodes_per_weight(),
    {
        self.virtual_nodes_per_weight
    }

    /// Returns the hard table-point limit.
    pub fn max_virtual_nodes(self) -> (n: usize)
        ensures
            n == self.spec_max_virtual_nodes(),
    {
        self.max_virtual_nodes
    }
}

impl Default for RingHashConfig {
    fn default() -> (c: Self)
        ensures
            c.spec_virtual_nodes_per_weight() == 128,
            c.spec_max_virtual_nodes() == 1_048_576,
    {
        RingHashConfig { virtual_nodes_per_weight: 128, max_virtual_nodes: 1_048_576 }
    }
}

/// Result of reconciling a candidate slice with a cached ring.
#[derive(Clone, Copy, Debug, PartialEq, Eq, Structural, Hash)]
pub enum RingUpdate {
    /// Identity, weight, eligibility, and order matched the cached state.
    Unchanged,
    /// A new table was committed.
    Rebuilt {
        /// Number of eligible candidate identities.
        members: usize,
        /// Number of virtual points in the table.
        virtual_nodes: usize,
    },
}

/// One eligible member of a ring: identity encoding, slice index, weight.
pub type RingMember = (Seq<u8>, usize, u32);

/// The eligible members among the first `n` candidates, in slice order.
pub open spec fn eligible_members<C: Candidate>(cs: Seq<C>, n: int) -> Seq<RingMember> where
    C::Id: StableKey,
    decreases n,
{
    if n <= 0 {
        Seq::empty()
    } else if eligible_at(cs, n - 1) {
        eligible_members(cs, n - 1).push((key_at(cs, n - 1), (n - 1) as usize, cs[n - 1].spec_weight()@))
    } else {
        eligible_members(cs, n - 1)
    }
}

/// Euclid's greatest common divisor.
pub open spec fn spec_gcd(a: nat, b: nat) -> nat
    decreases b,
{
    if b == 0 {
        a
    } else {
        spec_gcd(b, a % b)
    }
}

/// The greatest common divisor of the first `n` member weights.
pub open spec fn weight_divisor(ms: Seq<RingMember>, n: int) -> nat
    decreases n,
{
    if n <= 0 {
        0
    } else {
        spec_gcd(weight_divisor(ms, n - 1), ms[n - 1].2 as nat)
    }
}

/// How many ring points member `k` receives.
pub open spec fn member_replicas(ms: Seq<RingMember>, per_weight: u32, k: int) -> int {
    let g = weight_divisor(ms, ms.len() as int);
    if g == 0 {
        0
    } else {
        (ms[k].2 as int / g as int) * per_weight as int
    }
}

/// The number of ring points of the first `n` members.
pub open spec fn total_replicas(ms: Seq<RingMember>, per_weight: u32, n: int) -> int
    decreases n,
{
    if n <= 0 {
        0
    } else {
        total_replicas(ms, per_weight, n - 1) + member_replicas(ms, per_weight, n - 1)
    }
}

/// The identity hash stored with every point of a member.
pub open spec fn spec_hash_identity(key: Seq<u8>) -> u64 {
    spec_mix64(fnv1a(seq![2u8] + key))
}

/// The ring position of one replica of a member.
pub open spec fn spec_hash_point(key: Seq<u8>, replica: u64) -> u64 {
    spec_mix64(fnv1a(seq![3u8] + key + seq![4u8] + le_bytes_u64(replica)))
}

/// The ring position a request key hashes to.
pub open spec fn spec_hash_request(context: Seq<u8>) -> u64 {
    spec_mix64(fnv1a(seq![5u8] + context))
}

/// One virtual node of the ring.
#[derive(Clone, Copy, Debug, PartialEq, Eq, Structural)]
pub struct Point {
    pub position: u64,
    pub owner_hash: u64,
    pub replica: u64,
    pub index: usize,
}

impl SortKey for Point {
    open spec fn key_le(self, other: Self) -> bool {
        ||| self.position < other.position
        ||| self.position == other.position && self.owner_hash < other.owner_hash
        ||| self.position == other.position && self.owner_hash == other.owner_hash && self.replica
            < other.replica
        ||| self.position == other.position && self.owner_hash == other.owner_hash && self.replica
            == other.replica && self.index <= other.index
    }

    proof fn lemma_key_total(a: Self, b: Self) {
    }

    proof fn lemma_key_trans(a: Self, b: Self, c: Self) {
    }

    fn le(&self, other: &Self) -> (r: bool) {
        if self.position != other.position {
            self.position < other.position
        } else if self.owner_hash != other.owner_hash {
            self.owner_hash < other.owner_hash
        } else if self.replica != other.replica {
            self.replica < other.replica
        } else {
            self.index <= other.index
        }
    }
}

/// The ring points of member `k`, one per replica in replica order.
pub open spec fn member_points(ms: Seq<RingMember>, per_weight: u32, k: int) -> Seq<Point> {
    Seq::new(
        member_replicas(ms, per_weight, k) as nat,
        |r: int|
            Point {
                position: spec_hash_point(ms[k].0, r as u64),
                owner_hash: spec_hash_identity(ms[k].0),
                replica: r as u64,
                index: ms[k].1,
            },
    )
}

/// The ring points of the first `n` members, member after member.
pub open spec fn ring_points(ms: Seq<RingMember>, per_weight: u32, n: int) -> Seq<Point>
    decreases n,
{
    if n <= 0 {
        Seq::empty()
    } else {
        ring_points(ms, per_weight, n - 1) + member_points(ms, per_weight, n - 1)
    }
}

proof fn lemma_gcd_scale(a: nat, b: nat, f: nat)
    requires
        f > 0,
    ensures
        spec_gcd(f * a, f * b) == f * spec_gcd(a, b),
    decreases b,
{
    if b == 0 {
        assert(f * b == 0) by (nonlinear_arith)
            requires
                b == 0,
        ;
    } else {
        let q = a / b;
        let r = a % b;
        assert(f * b > 0 && (f * a) as int == (q as int) * ((f * b) as int) + (f * r) as int && f * r < f * b)
            by (nonlinear_arith)
            requires
                f > 0,
                b > 0,
                q == a / b,
                r == a % b,
        ;
        vstd::arithmetic::div_mod::lemma_fundamental_div_mod_converse(
            (f * a) as int,
            (f * b) as int,
            q as int,
            (f * r) as int,
        );
        assert((f * a) % (f * b) == f * r);
        lemma_gcd_scale(b, r, f);
    }
}

proof fn lemma_divisor_scale(ms: Seq<RingMember>, scaled: Seq<RingMember>, f: nat, n: int)
    requires
        f > 0,
        0 <= n <= ms.len(),
        ms.len() == scaled.len(),
        forall|k: int| 0 <= k < ms.len() ==> (#[trigger] scaled[k]).2 == f * ms[k].2,
    ensures
        weight_divisor(scaled, n) == f * weight_divisor(ms, n),
    decreases n,
{
    if n <= 0 {
        assert(f * 0 == 0) by (nonlinear_arith);
    } else {
        lemma_divisor_scale(ms, scaled, f, n - 1);
        assert(scaled[n - 1].2 == f * ms[n - 1].2);
        lemma_gcd_scale(weight_divisor(ms, n - 1), ms[n - 1].2 as nat, f);
    }
}

proof fn lemma_scaled_quotient(w: nat, g: nat, f: nat)
    requires
        f > 0,
        g > 0,
    ensures
        (f * w) / (f * g) == w / g,
{
    let q = (w / g) as int;
    let r = (w % g) as int;
    vstd::arithmetic::div_mod::lemma_fundamental_div_mod(w as int, g as int);
    assert((f * w) as int == q * (f * g) as int + (f as int) * r && 0 <= (f as int) * r < (f * g) as int)
        by (nonlinear_arith)
        requires
            f > 0,
            g > 0,
            w as int == g as int * q + r,
            0 <= r < g,
    ;
    vstd::arithmetic::div_mod::lemma_fundamental_div_mod_converse(
        (f * w) as int,
        (f * g) as int,
        q,
        (f as int) * r,
    );
}

/// Scaling every member weight by one positive factor builds the same ring:
/// the points of a member depend on the ratios of the weights alone.
pub proof fn lemma_scaled_weights_same_ring(
    ms: Seq<RingMember>,
    scaled: Seq<RingMember>,
    factor: nat,
    per_weight: u32,
)
    requires
        factor > 0,
        ms.len() == scaled.len(),
        forall|k: int| 0 <= k < ms.len() ==> #[trigger] ms[k].2 > 0,
        forall|k: int|
            0 <= k < ms.len() ==> (#[trigger] scaled[k]).0 == ms[k].0 && scaled[k].1 == ms[k].1 && scaled[k].2
                == factor * ms[k].2,
    ensures
        ring_points(scaled, per_weight, scaled.len() as int) == ring_points(ms, per_weight, ms.len() as int),
{
    let n = ms.len() as int;
    lemma_divisor_scale(ms, scaled, factor, n);
    let g = weight_divisor(ms, n);
    if n > 0 {
        lemma_weight_divisor(ms, n);
    }
    assert forall|k: int| 0 <= k < n implies member_replicas(scaled, per_weight, k) == member_replicas(
        ms,
        per_weight,
        k,
    ) by {
        assert(scaled[k].2 == factor * ms[k].2);
        assert(g > 0);
        lemma_scaled_quotient(ms[k].2 as nat, g, factor);
        assert(weight_divisor(scaled, scaled.len() as int) == factor * g);
        assert(factor * g > 0) by (nonlinear_arith)
            requires
                factor > 0,
                g > 0,
        ;
        assert(scaled[k].2 as int / (factor * g) as int == ms[k].2 as int / g as int);
    }
    assert forall|k: int| 0 <= k < n implies member_points(scaled, per_weight, k) =~= member_points(
        ms,
        per_weight,
        k,
    ) by {
        assert(scaled[k].0 == ms[k].0 && scaled[k].1 == ms[k].1);
    }
    lemma_ring_points_agree(ms, scaled, per_weight, n);
}

proof fn lemma_ring_points_agree(ms: Seq<RingMember>, scaled: Seq<RingMember>, per_weight: u32, n: int)
    requires
        0 <= n <= ms.len(),
        forall|k: int| 0 <= k < n ==> #[trigger] member_points(scaled, per_weight, k) == member_points(ms, per_weight, k),
    ensures
        ring_points(scaled, per_weight, n) == ring_points(ms, per_weight, n),
    decreases n,
{
    if n > 0 {
        lemma_ring_points_agree(ms, scaled, per_weight, n - 1);
        assert(member_points(scaled, per_weight, n - 1) == member_points(ms, per_weight, n - 1));
    }
}

/// Whether `points` is the ring of `ms`: every replica point of every
/// member, once, in ascending point order.
pub open spec fn is_ring_of(points: Seq<Point>, ms: Seq<RingMember>, per_weight: u32) -> bool {
    &&& sorted_by(points)
    &&& points.to_multiset() == ring_points(ms, per_weight, ms.len() as int).to_multiset()
}

/// Whether some member has slice index `index`.
pub open spec fn owned_by(ms: Seq<RingMember>, index: usize) -> bool {
    exists|m: int| 0 <= m < ms.len() && #[trigger] ms[m].1 == index
}

/// Whether `k` is the first point at or after `request`, wrapping to the
/// first point of the ring when every position is smaller.
pub open spec fn ring_choice(points: Seq<Point>, request: u64, k: int) -> bool {
    ||| 0 <= k < points.len() && points[k].position >= request && forall|j: int|
        0 <= j < k ==> #[trigger] points[j].position < request
    ||| k == 0 && points.len() > 0 && forall|j: int|
        0 <= j < points.len() ==> #[trigger] points[j].position < request
}

/// Weighted consistent hashing over a cached virtual-node ring.
///
/// Eligible candidates receive a number of ring points proportional to their
/// positive capacity weight. Requests hash to the first point clockwise, with
/// wraparound at the end of the `u64` space. Rebuilds are staged: duplicate
/// eligible identities or the configured capacity limit return a
/// [`PickError`] without replacing the previous table.
pub struct RingHash {
    config: RingHashConfig,
    hash_builder: FnvBuildHasher,
    members: Vec<(Vec<u8>, usize, u32)>,
    points: Vec<Point>,
    generation: u64,
}

spec fn members_view(ms: Seq<(Vec<u8>, usize, u32)>) -> Seq<RingMember> {
    ms.map_values(|m: (Vec<u8>, usize, u32)| (m.0@, m.1, m.2))
}

impl RingHash {
    #[verifier::type_invariant]
    spec fn well_formed(self) -> bool {
        &&& is_ring_of(
            self.points@,
            members_view(self.members@),
            self.config.spec_virtual_nodes_per_weight(),
        )
        &&& self.points@.len() > 0 <==> self.members@.len() > 0
        &&& member_keys_distinct(members_view(self.members@))
        &&& total_replicas(
            members_view(self.members@),
            self.config.spec_virtual_nodes_per_weight(),
            self.members@.len() as int,
        ) <= self.config.spec_max_virtual_nodes()
    }

    /// The committed members.
    pub closed spec fn members(&self) -> Seq<RingMember> {
        members_view(self.members@)
    }

    /// The committed ring, in ascending point order.
    pub closed spec fn ring(&self) -> Seq<Point> {
        self.points@
    }

    /// The configuration.
    pub closed spec fn spec_config(&self) -> RingHashConfig {
        self.config
    }

    /// The number of committed rebuilds.
    pub closed spec fn spec_generation(&self) -> u64 {
        self.generation
    }

    /// Creates an empty deterministic ring.
    pub fn new(config: RingHashConfig) -> (p: Self)
        ensures
            p.members() == Seq::<RingMember>::empty(),
            p.ring() == Seq::<Point>::empty(),
            p.spec_config() == config,
            p.spec_generation() == 0,
    {
        Self::with_hasher(config, FnvBuildHasher)
    }

    /// Creates an empty ring with the given hash builder.
    pub fn with_hasher(config: RingHashConfig, hash_builder: FnvBuildHasher) -> (p: Self)
        ensures
            p.members() == Seq::<RingMember>::empty(),
            p.ring() == Seq::<Point>::empty(),
            p.spec_config() == config,
            p.spec_generation() == 0,
    {
        let members: Vec<(Vec<u8>, usize, u32)> = Vec::new();
        let points: Vec<Point> = Vec::new();
        proof {
            assert(members_view(members@) =~= Seq::<RingMember>::empty());
        }
        RingHash { config, hash_builder, members, points, generation: 0 }
    }

    /// Returns the configuration.
    pub fn config(&self) -> (c: RingHashConfig)
        ensures
            c == self.spec_config(),
    {
        self.config
    }

    /// Returns the hash builder.
    pub fn hash_builder(&self) -> (b: &FnvBuildHasher)
        ensures
            *b == FnvBuildHasher,
    {
        &self.hash_builder
    }

    /// Returns the committed virtual-node count.
    pub fn virtual_node_count(&self) -> (n: usize)
        ensures
            n == self.ring().len(),
    {
        self.points.len()
    }

    /// Returns the committed ring points in ring order.
    pub fn points(&self) -> (p: &[Point])
        ensures
            p@ == self.ring(),
    {
        self.points.as_slice()
    }

    /// Returns the committed eligible-member count.
    pub fn member_count(&self) -> (n: usize)
        ensures
            n == self.members().len(),
    {
        self.members.len()
    }

    /// Returns the number of committed rebuilds, wrapping at `u64::MAX`.
    pub fn generation(&self) -> (g: u64)
        ensures
            g == self.spec_generation(),
    {
        self.generation
    }

    /// Clears the cached membership and ring.
    pub fn reset(&mut self)
        ensures
            final(self).members() == Seq::<RingMember>::empty(),
            final(self).ring() == Seq::<Point>::empty(),
            final(self).spec_config() == old(self).spec_config(),
            final(self).spec_generation() == 0,
    {
        let members: Vec<(Vec<u8>, usize, u32)> = Vec::new();
        let points: Vec<Point> = Vec::new();
        proof {
            assert(members_view(members@) =~= Seq::<RingMember>::empty());
        }
        *self = RingHash {
            config: self.config,
            hash_builder: self.hash_builder,
            members,
            points,
            generation: 0,
        };
    }

    /// Decomposes the policy into configuration and hash builder.
    pub fn into_parts(self) -> (r: (RingHashConfig, FnvBuildHasher))
        ensures
            r.0 == self.spec_config(),
    {
        (self.config, self.hash_builder)
    }
}


/// `d` divides `x`.
pub open spec fn divides(d: nat, x: nat) -> bool {
    exists|q: nat| #[trigger] (d * q) == x
}

proof fn lemma_divides_mul(d: nat, x: nat, m: nat)
    requires
        divides(d, x),
    ensures
        divides(d, x * m),
{
    let q = choose|q: nat| #[trigger] (d * q) == x;
    assert(d * (q * m) == x * m) by (nonlinear_arith)
        requires
            d * q == x,
    ;
}

proof fn lemma_divides_add(d: nat, x: nat, y: nat)
    requires
        divides(d, x),
        divides(d, y),
    ensures
        divides(d, x + y),
{
    let q = choose|q: nat| #[trigger] (d * q) == x;
    let p = choose|p: nat| #[trigger] (d * p) == y;
    assert(d * (q + p) == x + y) by (nonlinear_arith)
        requires
            d * q == x,
            d * p == y,
    ;
}

proof fn lemma_divides_trans(g: nat, a: nat, x: nat)
    requires
        divides(g, a),
        divides(a, x),
    ensures
        divides(g, x),
{
    let q = choose|q: nat| #[trigger] (g * q) == a;
    let p = choose|p: nat| #[trigger] (a * p) == x;
    assert(g * (q * p) == x) by (nonlinear_arith)
        requires
            g * q == a,
            a * p == x,
    ;
}

proof fn lemma_divides_le(d: nat, x: nat)
    requires
        divides(d, x),
        x > 0,
    ensures
        d <= x,
{
    let q = choose|q: nat| #[trigger] (d * q) == x;
    assert(d <= x) by (nonlinear_arith)
        requires
            d * q == x,
            x > 0,
    ;
}

/// The greatest common divisor divides both arguments, and it is positive
/// when either argument is.
pub proof fn lemma_gcd_divides(a: nat, b: nat)
    ensures
        divides(spec_gcd(a, b), a),
        divides(spec_gcd(a, b), b),
        a > 0 || b > 0 ==> spec_gcd(a, b) > 0,
    decreases b,
{
    if b == 0 {
        assert(a * 1 == a);
        assert(a * 0 == 0);
    } else {
        let r = a % b;
        lemma_gcd_divides(b, r);
        let g = spec_gcd(b, r);
        assert(a == b * (a / b) + r) by (nonlinear_arith)
            requires
                b > 0,
                r == a % b,
        ;
        lemma_divides_mul(g, b, a / b);
        lemma_divides_add(g, b * (a / b), r);
    }
}

/// The divisor of the first `n` weights divides each of them, and it is
/// positive once one positive weight is included.
pub proof fn lemma_weight_divisor(ms: Seq<RingMember>, n: int)
    requires
        0 <= n <= ms.len(),
        forall|k: int| 0 <= k < ms.len() ==> #[trigger] ms[k].2 > 0,
    ensures
        forall|k: int| 0 <= k < n ==> divides(weight_divisor(ms, n), #[trigger] ms[k].2 as nat),
        n > 0 ==> weight_divisor(ms, n) > 0,
    decreases n,
{
    if n > 0 {
        lemma_weight_divisor(ms, n - 1);
        let prev = weight_divisor(ms, n - 1);
        let w = ms[n - 1].2 as nat;
        lemma_gcd_divides(prev, w);
        assert forall|k: int| 0 <= k < n implies divides(weight_divisor(ms, n), #[trigger] ms[k].2 as nat) by {
            if k < n - 1 {
                lemma_divides_trans(weight_divisor(ms, n), prev, ms[k].2 as nat);
            }
        }
    }
}

/// Computes the greatest common divisor.
pub fn greatest_common_divisor(left: u32, right: u32) -> (g: u32)
    ensures
        g == spec_gcd(left as nat, right as nat),
{
    let mut a = left;
    let mut b = right;
    while b != 0
        invariant
            spec_gcd(a as nat, b as nat) == spec_gcd(left as nat, right as nat),
        decreases b,
    {
        let r = a % b;
        a = b;
        b = r;
    }
    a
}

fn hash_identity_bytes(hash_builder: &FnvBuildHasher, key: &[u8]) -> (h: u64)
    ensures
        h == spec_hash_identity(key@),
{
    let mut hasher = hash_builder.build_hasher();
    hasher.write_u8(2);
    hasher.write(key);
    proof {
        super::rendezvous::lemma_fnv_one(FNV_OFFSET_BASIS, 2u8);
        lemma_fnv_concat(FNV_OFFSET_BASIS, seq![2u8], key@);
    }
    mix64(hasher.finish())
}

fn hash_point_bytes(hash_builder: &FnvBuildHasher, key: &[u8], replica: u64) -> (h: u64)
    ensures
        h == spec_hash_point(key@, replica),
{
    let mut hasher = hash_builder.build_hasher();
    hasher.write_u8(3);
    hasher.write(key);
    hasher.write_u8(4);
    hasher.write_u64(replica);
    proof {
        let k = key@;
        super::rendezvous::lemma_fnv_one(FNV_OFFSET_BASIS, 3u8);
        lemma_fnv_concat(FNV_OFFSET_BASIS, seq![3u8], k);
        super::rendezvous::lemma_fnv_one(spec_fnv(FNV_OFFSET_BASIS, seq![3u8] + k), 4u8);
        lemma_fnv_concat(FNV_OFFSET_BASIS, seq![3u8] + k, seq![4u8]);
        lemma_fnv_concat(FNV_OFFSET_BASIS, seq![3u8] + k + seq![4u8], le_bytes_u64(replica));
    }
    mix64(hasher.finish())
}

/// Hashes a request key onto the ring.
pub fn hash_request<K: StableKey + ?Sized>(hash_builder: &FnvBuildHasher, context: &K) -> (h: u64)
    ensures
        h == spec_hash_request(context.key_bytes()),
{
    let mut hasher = hash_builder.build_hasher();
    hasher.write_u8(5);
    context.hash_into(&mut hasher);
    proof {
        super::rendezvous::lemma_fnv_one(FNV_OFFSET_BASIS, 5u8);
        lemma_fnv_concat(FNV_OFFSET_BASIS, seq![5u8], context.key_bytes());
    }
    mix64(hasher.finish())
}

/// Hashes a backend identity for the point tie-break.
pub fn hash_identity<K: StableKey + ?Sized>(hash_builder: &FnvBuildHasher, key: &K) -> (h: u64)
    ensures
        h == spec_hash_identity(key.key_bytes()),
{
    let bytes = key.encode();
    hash_identity_bytes(hash_builder, bytes.as_slice())
}

/// The members of a prefix of the candidates are a prefix of the members,
/// with strictly increasing slice indices below the prefix length.
pub proof fn lemma_eligible_members<C: Candidate>(cs: Seq<C>, n: int) where C::Id: StableKey
    requires
        0 <= n <= cs.len(),
        cs.len() <= usize::MAX,
    ensures
        forall|k: int|
            0 <= k < eligible_members(cs, n).len() ==> (#[trigger] eligible_members(cs, n)[k]).1 < n
                && eligible_at(cs, eligible_members(cs, n)[k].1 as int)
                && eligible_members(cs, n)[k].0 == key_at(cs, eligible_members(cs, n)[k].1 as int)
                && eligible_members(cs, n)[k].2 == cs[eligible_members(cs, n)[k].1 as int].spec_weight()@,
        forall|a: int, b: int|
            0 <= a < b < eligible_members(cs, n).len() ==> (#[trigger] eligible_members(cs, n)[a]).1
                < (#[trigger] eligible_members(cs, n)[b]).1,
        eligible_members(cs, n).len() == 0 <==> forall|i: int| 0 <= i < n ==> !eligible_at(cs, i),
    decreases n,
{
    if n > 0 {
        lemma_eligible_members(cs, n - 1);
        if eligible_at(cs, n - 1) {
            let prev = eligible_members(cs, n - 1);
            let cur = eligible_members(cs, n);
            assert(cur.len() > 0);
            assert forall|k: int| 0 <= k < cur.len() implies (#[trigger] cur[k]).1 < n && eligible_at(
                cs,
                cur[k].1 as int,
            ) && cur[k].0 == key_at(cs, cur[k].1 as int) && cur[k].2 == cs[cur[k].1 as int].spec_weight()@ by {
                if k < prev.len() {
                    assert(cur[k] == prev[k]);
                } else {
                    assert(cur[k].1 == n - 1);
                }
            }
            assert forall|a: int, b: int| 0 <= a < b < cur.len() implies (#[trigger] cur[a]).1 < (
            #[trigger] cur[b]).1 by {
                assert(cur[a] == prev[a]);
                if b < prev.len() {
                    assert(cur[b] == prev[b]);
                }
            }
        } else {
            assert(eligible_members(cs, n) == eligible_members(cs, n - 1));
        }
    }
}

/// Whether no two members share an identity encoding.
pub open spec fn member_keys_distinct(ms: Seq<RingMember>) -> bool {
    forall|a: int, b: int| 0 <= a < b < ms.len() ==> (#[trigger] ms[a]).0 != (#[trigger] ms[b]).0
}

/// Every eligible candidate among the first `n` is a member.
proof fn lemma_eligible_covered<C: Candidate>(cs: Seq<C>, n: int, i: int) where C::Id: StableKey
    requires
        0 <= i < n <= cs.len(),
        cs.len() <= usize::MAX,
        eligible_at(cs, i),
    ensures
        exists|k: int| 0 <= k < eligible_members(cs, n).len() && (#[trigger] eligible_members(cs, n)[k]).1 == i,
    decreases n,
{
    let cur = eligible_members(cs, n);
    if i == n - 1 {
        let prev = eligible_members(cs, n - 1);
        assert(cur == prev.push((key_at(cs, i), i as usize, cs[i].spec_weight()@)));
        assert(cur[prev.len() as int].1 == i);
    } else {
        lemma_eligible_covered(cs, n - 1, i);
        let prev = eligible_members(cs, n - 1);
        let k = choose|k: int| 0 <= k < prev.len() && (#[trigger] prev[k]).1 == i;
        assert(cur[k] == prev[k]);
    }
}

/// The eligible candidates have distinct identities exactly when their
/// members do.
pub proof fn lemma_unique_members<C: Candidate>(cs: Seq<C>) where C::Id: StableKey
    requires
        cs.len() <= usize::MAX,
    ensures
        eligible_keys_unique(cs) <==> member_keys_distinct(candidate_members(cs)),
{
    let n = cs.len() as int;
    let ms = candidate_members(cs);
    lemma_eligible_members(cs, n);
    if eligible_keys_unique(cs) {
        assert forall|a: int, b: int| 0 <= a < b < ms.len() implies (#[trigger] ms[a]).0 != (#[trigger] ms[b]).0 by {
            assert(key_at(cs, ms[a].1 as int) != key_at(cs, ms[b].1 as int));
        }
    }
    if member_keys_distinct(ms) {
        assert forall|i: int, j: int|
            eligible_at(cs, i) && eligible_at(cs, j) && i != j implies #[trigger] key_at(cs, i)
            != #[trigger] key_at(cs, j) by {
            lemma_eligible_covered(cs, n, i);
            lemma_eligible_covered(cs, n, j);
            let ki = choose|k: int| 0 <= k < ms.len() && (#[trigger] ms[k]).1 == i;
            let kj = choose|k: int| 0 <= k < ms.len() && (#[trigger] ms[k]).1 == j;
            if ki < kj {
                assert(ms[ki].0 != ms[kj].0);
            } else {
                assert(ms[kj].0 != ms[ki].0);
            }
        }
    }
}

impl RingHash {
    /// Whether the committed members equal the eligible candidates, in order,
    /// with the same identity, slice index, and weight.
    pub fn matches<C: Candidate>(&self, candidates: &[C]) -> (b: bool) where C::Id: StableKey
        ensures
            b == (self.members() == eligible_members(candidates@, candidates@.len() as int)),
    {
        let n = candidates.len();
        let mlen = self.members.len();
        let ghost ms = self.members();
        let mut m: usize = 0;
        let mut index: usize = 0;
        while index < n
            invariant
                n == candidates@.len(),
                mlen == self.members@.len(),
                ms == self.members(),
                ms.len() == mlen,
                index <= n,
                m <= mlen,
                ms.take(m as int) == eligible_members(candidates@, index as int),
            decreases n - index,
        {
            let candidate = &candidates[index];
            if candidate.is_eligible() {
                if m >= mlen {
                    proof {
                        assert(eligible_members(candidates@, index + 1).len() == mlen + 1);
                        lemma_members_len_mono(candidates@, index + 1, n as int);
                    }
                    return false;
                }
                let member = &self.members[m];
                let key = candidate.id().encode();
                if member.1 != index || member.2 != candidate.weight().get() || !bytes_equal(
                    member.0.as_slice(),
                    key.as_slice(),
                ) {
                    proof {
                        assert(ms[m as int] != eligible_members(candidates@, index + 1)[m as int]);
                        lemma_members_prefix(candidates@, index + 1, n as int);
                    }
                    return false;
                }
                proof {
                    assert(ms.take(m + 1) =~= eligible_members(candidates@, index + 1));
                }
                m = m + 1;
            } else {
                proof {
                    assert(eligible_members(candidates@, index + 1) == eligible_members(candidates@, index as int));
                }
            }
            index = index + 1;
        }
        if m < mlen {
            proof {
                assert(eligible_members(candidates@, n as int).len() == m);
            }
            return false;
        }
        proof {
            assert(ms.take(m as int) =~= ms);
        }
        true
    }
}

pub proof fn lemma_members_len_mono<C: Candidate>(cs: Seq<C>, a: int, b: int) where C::Id: StableKey
    requires
        0 <= a <= b,
    ensures
        eligible_members(cs, a).len() <= eligible_members(cs, b).len(),
    decreases b - a,
{
    if a < b {
        lemma_members_len_mono(cs, a, b - 1);
    }
}

pub proof fn lemma_members_prefix<C: Candidate>(cs: Seq<C>, a: int, b: int) where C::Id: StableKey
    requires
        0 <= a <= b,
    ensures
        eligible_members(cs, b).len() >= eligible_members(cs, a).len(),
        eligible_members(cs, b).take(eligible_members(cs, a).len() as int) == eligible_members(cs, a),
    decreases b - a,
{
    if a < b {
        lemma_members_prefix(cs, a, b - 1);
        let pa = eligible_members(cs, a);
        let pb1 = eligible_members(cs, b - 1);
        let pb = eligible_members(cs, b);
        assert(pb.take(pa.len() as int) =~= pb1.take(pa.len() as int));
    } else {
        assert(eligible_members(cs, a).take(eligible_members(cs, a).len() as int) =~= eligible_members(cs, a));
    }
}


proof fn lemma_total_mono(ms: Seq<RingMember>, per_weight: u32, a: int, b: int)
    requires
        0 <= a <= b <= ms.len(),
    ensures
        total_replicas(ms, per_weight, a) <= total_replicas(ms, per_weight, b),
    decreases b - a,
{
    if a < b {
        lemma_total_mono(ms, per_weight, a, b - 1);
        let g = weight_divisor(ms, ms.len() as int) as int;
        let w = ms[b - 1].2 as int;
        if g > 0 {
            assert((w / g) * per_weight as int >= 0) by (nonlinear_arith)
                requires
                    w >= 0,
                    g > 0,
                    per_weight >= 0,
            ;
        }
    }
}


fn push_member_points(
    hash_builder: &FnvBuildHasher,
    raw: &mut Vec<Point>,
    key: &[u8],
    index: usize,
    owner_hash: u64,
    replicas: u64,
)
    requires
        old(raw)@.len() + replicas <= usize::MAX,
    ensures
        final(raw)@ == old(raw)@ + Seq::new(
            replicas as nat,
            |r: int|
                Point {
                    position: spec_hash_point(key@, r as u64),
                    owner_hash,
                    replica: r as u64,
                    index,
                },
        ),
{
    let ghost base = raw@;
    let mut replica: u64 = 0;
    while replica < replicas
        invariant
            base.len() + replicas <= usize::MAX,
            replica <= replicas,
            raw@ == base + Seq::new(
                replica as nat,
                |r: int|
                    Point {
                        position: spec_hash_point(key@, r as u64),
                        owner_hash,
                        replica: r as u64,
                        index,
                    },
            ),
        decreases replicas - replica,
    {
        let position = hash_point_bytes(hash_builder, key, replica);
        raw.push(Point { position, owner_hash, replica, index });
        replica = replica + 1;
        proof {
            assert(raw@ =~= base + Seq::new(
                replica as nat,
                |r: int|
                    Point {
                        position: spec_hash_point(key@, r as u64),
                        owner_hash,
                        replica: r as u64,
                        index,
                    },
            ));
        }
    }
}

/// A member's replica count is not negative.
proof fn lemma_member_replicas_nonneg(ms: Seq<RingMember>, per: u32, k: int)
    ensures
        member_replicas(ms, per, k) >= 0,
{
    let g = weight_divisor(ms, ms.len() as int) as int;
    let w = ms[k].2 as int;
    if g > 0 {
        assert((w / g) * per as int >= 0) by (nonlinear_arith)
            requires
                w >= 0,
                g > 0,
                per >= 0,
        ;
    }
}

/// Every member with a positive weight gets at least `per` points.
proof fn lemma_member_replicas_pos(ms: Seq<RingMember>, per: u32, k: int)
    requires
        0 <= k < ms.len(),
        per > 0,
        forall|j: int| 0 <= j < ms.len() ==> #[trigger] ms[j].2 > 0,
    ensures
        member_replicas(ms, per, k) >= per,
{
    lemma_weight_divisor(ms, ms.len() as int);
    let g = weight_divisor(ms, ms.len() as int);
    let w = ms[k].2 as nat;
    assert(divides(g, w));
    lemma_divides_le(g, w);
    assert((w as int / g as int) * per as int >= per) by (nonlinear_arith)
        requires
            0 < g <= w,
            per > 0,
    ;
}

/// The ring of the first `n` members holds as many points as they have
/// replicas, and each point belongs to one of them.
proof fn lemma_ring_points(ms: Seq<RingMember>, per: u32, n: int)
    requires
        0 <= n <= ms.len(),
    ensures
        ring_points(ms, per, n).len() == total_replicas(ms, per, n),
        forall|q: int|
            0 <= q < ring_points(ms, per, n).len() ==> owned_by(
                ms,
                (#[trigger] ring_points(ms, per, n)[q]).index,
            ),
    decreases n,
{
    if n > 0 {
        lemma_ring_points(ms, per, n - 1);
        lemma_member_replicas_nonneg(ms, per, n - 1);
        let prev = ring_points(ms, per, n - 1);
        let cur = ring_points(ms, per, n);
        assert forall|q: int| 0 <= q < cur.len() implies owned_by(ms, (#[trigger] cur[q]).index) by {
            if q < prev.len() {
                assert(cur[q] == prev[q]);
            } else {
                assert(cur[q].index == ms[n - 1].1);
            }
        }
    }
}

/// Every point of a ring belongs to one of its members.
proof fn lemma_ring_owned(points: Seq<Point>, ms: Seq<RingMember>, per: u32, p: int)
    requires
        is_ring_of(points, ms, per),
        0 <= p < points.len(),
    ensures
        owned_by(ms, points[p].index),
{
    let all = ring_points(ms, per, ms.len() as int);
    lemma_ring_points(ms, per, ms.len() as int);
    assert(points.to_multiset().count(points[p]) > 0);
    assert(all.contains(points[p]));
    let q = choose|q: int| 0 <= q < all.len() && all[q] == points[p];
    assert(owned_by(ms, all[q].index));
}

/// A ring holds points exactly when it has members, provided every member
/// weight and the per-weight factor are positive.
proof fn lemma_ring_nonempty(points: Seq<Point>, ms: Seq<RingMember>, per: u32)
    requires
        points.to_multiset() == ring_points(ms, per, ms.len() as int).to_multiset(),
        per > 0,
        forall|j: int| 0 <= j < ms.len() ==> #[trigger] ms[j].2 > 0,
    ensures
        points.len() > 0 <==> ms.len() > 0,
{
    let all = ring_points(ms, per, ms.len() as int);
    lemma_ring_points(ms, per, ms.len() as int);
    vstd::seq_lib::to_multiset_len(points);
    vstd::seq_lib::to_multiset_len(all);
    if ms.len() > 0 {
        lemma_member_replicas_pos(ms, per, 0);
        lemma_total_mono(ms, per, 1, ms.len() as int);
        assert(total_replicas(ms, per, 0) == 0);
        assert(total_replicas(ms, per, 1) == member_replicas(ms, per, 0));
    }
}

/// The eligible members of `cs`.
pub open spec fn candidate_members<C: Candidate>(cs: Seq<C>) -> Seq<RingMember> where
    C::Id: StableKey,
 {
    eligible_members(cs, cs.len() as int)
}

impl RingHash {
    fn build_members<C: Candidate>(candidates: &[C]) -> (v: Vec<(Vec<u8>, usize, u32)>) where
        C::Id: StableKey,
        ensures
            members_view(v@) == candidate_members(candidates@),
            forall|k: int| 0 <= k < v@.len() ==> #[trigger] v@[k].2 > 0,
    {
        let n = candidates.len();
        let mut next: Vec<(Vec<u8>, usize, u32)> = Vec::new();
        let mut index: usize = 0;
        while index < n
            invariant
                n == candidates@.len(),
                index <= n,
                members_view(next@) == eligible_members(candidates@, index as int),
                forall|k: int| 0 <= k < next@.len() ==> #[trigger] next@[k].2 > 0,
            decreases n - index,
        {
            let candidate = &candidates[index];
            if candidate.is_eligible() {
                let key = candidate.id().encode();
                let weight = candidate.weight().get();
                let ghost before = next@;
                next.push((key, index, weight));
                proof {
                    assert(members_view(next@) =~= members_view(before).push(
                        (key_at(candidates@, index as int), index, weight),
                    ));
                }
            }
            index = index + 1;
        }
        next
    }

    /// Rebuilds the ring if identity, slice index, weight, or eligibility
    /// changed.
    ///
    /// Duplicate eligible identities report [`PickError::DuplicateIdentity`]
    /// and a ring larger than the configured bound reports
    /// [`PickError::StateCapacityExceeded`]; either way the committed ring is
    /// kept.
    pub fn reconcile<C: Candidate>(&mut self, candidates: &[C]) -> (r: Result<RingUpdate, PickError>) where
        C::Id: StableKey,
        ensures
            final(self).spec_config() == old(self).spec_config(),
            is_ring_of(
                final(self).ring(),
                final(self).members(),
                final(self).spec_config().spec_virtual_nodes_per_weight(),
            ),
            final(self).ring().len() > 0 <==> final(self).members().len() > 0,
            ({
                let ms = candidate_members(candidates@);
                let per = old(self).spec_config().spec_virtual_nodes_per_weight();
                let total = total_replicas(ms, per, ms.len() as int);
                let unchanged = final(self).members() == old(self).members() && final(self).ring()
                    == old(self).ring() && final(self).spec_generation() == old(
                    self,
                ).spec_generation();
                &&& old(self).members() == ms ==> r == Ok::<RingUpdate, PickError>(
                    RingUpdate::Unchanged,
                ) && unchanged
                &&& !eligible_keys_unique(candidates@) ==> r == Err::<RingUpdate, PickError>(
                    PickError::DuplicateIdentity,
                ) && unchanged
                &&& eligible_keys_unique(candidates@) && total > old(
                    self,
                ).spec_config().spec_max_virtual_nodes() ==> r == Err::<RingUpdate, PickError>(
                    PickError::StateCapacityExceeded,
                ) && unchanged
                &&& old(self).members() != ms && eligible_keys_unique(candidates@) && total
                    <= old(self).spec_config().spec_max_virtual_nodes() ==> r == Ok::<
                    RingUpdate,
                    PickError,
                >(RingUpdate::Rebuilt { members: ms.len() as usize, virtual_nodes: total as usize })
                    && final(self).members() == ms && final(self).spec_generation() == (if old(
                    self,
                ).spec_generation() == u64::MAX {
                    0
                } else {
                    old(self).spec_generation() + 1
                })
            }),
    {
        let clen = candidates.len();
        proof {
            use_type_invariant(&*self);
            lemma_unique_members(candidates@);
        }
        if self.matches(candidates) {
            return Ok(RingUpdate::Unchanged);
        }
        if find_duplicate_eligible(candidates) {
            return Err(PickError::DuplicateIdentity);
        }
        let next = Self::build_members(candidates);
        let ghost ms = members_view(next@);
        proof {
            lemma_eligible_members(candidates@, candidates@.len() as int);
        }
        let mlen = next.len();
        let mut divisor: u32 = 0;
        let mut k: usize = 0;
        while k < mlen
            invariant
                mlen == next@.len(),
                ms == members_view(next@),
                ms == candidate_members(candidates@),
                old(self).members() != ms,
                eligible_keys_unique(candidates@),
                *self == *old(self),
                k <= mlen,
                divisor == weight_divisor(ms, k as int),
            decreases mlen - k,
        {
            divisor = greatest_common_divisor(divisor, next[k].2);
            k = k + 1;
        }
        proof {
            lemma_weight_divisor(ms, mlen as int);
        }
        let per = self.config.virtual_nodes_per_weight;
        let max = self.config.max_virtual_nodes;
        let mut total: usize = 0;
        k = 0;
        while k < mlen
            invariant
                mlen == next@.len(),
                ms == members_view(next@),
                ms == candidate_members(candidates@),
                old(self).members() != ms,
                eligible_keys_unique(candidates@),
                *self == *old(self),
                ms.len() == mlen,
                k <= mlen,
                divisor == weight_divisor(ms, mlen as int),
                mlen > 0 ==> divisor > 0,
                forall|j: int| 0 <= j < mlen ==> #[trigger] ms[j].2 > 0,
                per == self.config.spec_virtual_nodes_per_weight(),
                max == self.config.spec_max_virtual_nodes(),
                total as int == total_replicas(ms, per, k as int),
                total <= max,
            decreases mlen - k,
        {
            let w = next[k].2;
            let reduced = w / divisor;
            assert(reduced as int * per as int <= u64::MAX) by (nonlinear_arith)
                requires
                    reduced <= u32::MAX,
                    per <= u32::MAX,
            ;
            let points = reduced as u64 * per as u64;
            assert(points as int == member_replicas(ms, per, k as int));
            if points > max as u64 {
                proof {
                    lemma_total_mono(ms, per, 0, k as int);
                    lemma_total_mono(ms, per, k + 1, mlen as int);
                }
                proof {
                    use_type_invariant(&*self);
                }
                return Err(PickError::StateCapacityExceeded);
            }
            let points = points as usize;
            if total > max - points {
                proof {
                    lemma_total_mono(ms, per, 0, k as int);
                    lemma_total_mono(ms, per, k + 1, mlen as int);
                }
                proof {
                    use_type_invariant(&*self);
                }
                return Err(PickError::StateCapacityExceeded);
            }
            total = total + points;
            k = k + 1;
        }
        let mut raw: Vec<Point> = Vec::new();
        proof {
            assert(raw@ =~= ring_points(ms, per, 0));
        }
        k = 0;
        while k < mlen
            invariant
                mlen == next@.len(),
                ms == members_view(next@),
                ms == candidate_members(candidates@),
                old(self).members() != ms,
                eligible_keys_unique(candidates@),
                *self == *old(self),
                ms.len() == mlen,
                k <= mlen,
                divisor == weight_divisor(ms, mlen as int),
                mlen > 0 ==> divisor > 0,
                per == self.config.spec_virtual_nodes_per_weight(),
                total as int == total_replicas(ms, per, mlen as int),
                total <= self.config.spec_max_virtual_nodes(),
                raw@ == ring_points(ms, per, k as int),
                forall|j: int| 0 <= j < mlen ==> #[trigger] ms[j].2 > 0,
            decreases mlen - k,
        {
            let w = next[k].2;
            let reduced = w / divisor;
            assert(reduced as int * per as int <= u64::MAX) by (nonlinear_arith)
                requires
                    reduced <= u32::MAX,
                    per <= u32::MAX,
            ;
            let replicas = reduced as u64 * per as u64;
            assert(replicas as int == member_replicas(ms, per, k as int));
            proof {
                lemma_total_mono(ms, per, k + 1, mlen as int);
                lemma_ring_points(ms, per, k as int);
            }
            let owner_hash = hash_identity_bytes(&self.hash_builder, next[k].0.as_slice());
            let index = next[k].1;
            push_member_points(&self.hash_builder, &mut raw, next[k].0.as_slice(), index, owner_hash, replicas);
            proof {
                assert(raw@ =~= ring_points(ms, per, k + 1));
            }
            k = k + 1;
        }
        let sorted = merge_sort(&raw);
        proof {
            use_type_invariant(&self.config);
            lemma_ring_nonempty(sorted@, ms, per);
        }
        let generation = self.generation.wrapping_add(1);
        *self = RingHash {
            config: self.config,
            hash_builder: self.hash_builder,
            members: next,
            points: sorted,
            generation,
        };
        Ok(RingUpdate::Rebuilt { members: mlen, virtual_nodes: total })
    }
}

/// The number of leading points positioned before `request`.
fn partition_point(points: &Vec<Point>, request: u64) -> (k: usize)
    requires
        sorted_by(points@),
    ensures
        k <= points@.len(),
        forall|j: int| 0 <= j < k ==> #[trigger] points@[j].position < request,
        forall|j: int| k <= j < points@.len() ==> #[trigger] points@[j].position >= request,
{
    let mut lo: usize = 0;
    let mut hi: usize = points.len();
    while lo < hi
        invariant
            sorted_by(points@),
            lo <= hi <= points@.len(),
            forall|j: int| 0 <= j < lo ==> #[trigger] points@[j].position < request,
            forall|j: int| hi <= j < points@.len() ==> #[trigger] points@[j].position >= request,
        decreases hi - lo,
    {
        let mid = lo + (hi - lo) / 2;
        if points[mid].position < request {
            proof {
                assert forall|j: int| 0 <= j <= mid implies #[trigger] points@[j].position < request by {
                    assert(points@[j].key_le(points@[mid as int]));
                }
            }
            lo = mid + 1;
        } else {
            proof {
                assert forall|j: int| mid <= j < points@.len() implies #[trigger] points@[j].position
                    >= request by {
                    assert(points@[mid as int].key_le(points@[j]));
                }
            }
            hi = mid;
        }
    }
    lo
}

impl RingHash {
    /// Finds the slice index owning the first point at or after `request`,
    /// wrapping to the first point of the ring.
    pub fn lookup(&self, request: u64) -> (index: usize)
        requires
            self.ring().len() > 0,
        ensures
            exists|k: int| ring_choice(self.ring(), request, k) && index == self.ring()[k].index,
            owned_by(self.members(), index),
    {
        proof {
            use_type_invariant(self);
        }
        let point = partition_point(&self.points, request);
        if point < self.points.len() {
            proof {
                assert(ring_choice(self.ring(), request, point as int));
                lemma_ring_owned(
                    self.points@,
                    self.members(),
                    self.config.spec_virtual_nodes_per_weight(),
                    point as int,
                );
            }
            self.points[point].index
        } else {
            proof {
                assert(ring_choice(self.ring(), request, 0));
                lemma_ring_owned(
                    self.points@,
                    self.members(),
                    self.config.spec_virtual_nodes_per_weight(),
                    0,
                );
            }
            self.points[0].index
        }
    }
}

impl<C: Candidate, Context: StableKey + ?Sized> Policy<C, Context> for RingHash where
    C::Id: StableKey,
 {
    open spec fn pick_outcome(
        &self,
        after: &Self,
        candidates: &[C],
        context: &Context,
        r: Result<Selection, PickError>,
    ) -> bool {
        &&& ({
            let ms = candidate_members(candidates@);
            let per = self.spec_config().spec_virtual_nodes_per_weight();
            let total = total_replicas(ms, per, ms.len() as int);
            let max = self.spec_config().spec_max_virtual_nodes();
            let committed = self.members() == ms || (eligible_keys_unique(candidates@)
                && total <= max);
            let kept = after.members() == self.members() && after.ring() == self.ring()
                && after.spec_generation() == self.spec_generation();
            &&& !eligible_keys_unique(candidates@) ==> r == Err::<Selection, PickError>(
                PickError::DuplicateIdentity,
            ) && kept
            &&& eligible_keys_unique(candidates@) && total > max ==> r == Err::<
                Selection,
                PickError,
            >(PickError::StateCapacityExceeded) && kept
            &&& self.members() == ms ==> kept
            &&& self.members() != ms && eligible_keys_unique(candidates@) && total <= max
                ==> after.spec_generation() == (if self.spec_generation() == u64::MAX {
                0
            } else {
                self.spec_generation() + 1
            })
            &&& committed ==> after.members() == ms
            &&& committed && ms.len() == 0 ==> r == Err::<Selection, PickError>(
                super::spec_no_candidate_error(candidates@.len()),
            )
            &&& committed && ms.len() > 0 ==> (r matches Ok(s) && exists|k: int|
                ring_choice(after.ring(), spec_hash_request(context.key_bytes()), k)
                    && s@ == after.ring()[k].index)
        })
        &&& after.spec_config() == self.spec_config()
        &&& is_ring_of(
            after.ring(),
            after.members(),
            after.spec_config().spec_virtual_nodes_per_weight(),
        )
    }

    /// Reconciles the ring with `candidates`, then selects the owner of the
    /// first point at or after the request hash.
    #[verifier::rlimit(40)]
    fn pick(&mut self, candidates: &[C], context: &Context) -> (r: Result<Selection, PickError>) {
        match self.reconcile(candidates) {
            Ok(_) => {},
            Err(e) => {
                return Err(e);
            },
        }
        let count = candidates.len();
        if self.points.len() == 0 {
            return Err(super::no_candidate_error(count));
        }
        let request = hash_request(&self.hash_builder, context);
        let index = self.lookup(request);
        assert(index < candidates@.len()) by {
            lemma_eligible_members(candidates@, candidates@.len() as int);
            let m = choose|m: int| 0 <= m < self.members().len() && #[trigger] self.members()[m].1
                == index;
            assert(self.members()[m].1 < candidates@.len());
        }
        Ok(Selection::new(index))
    }
}

proof fn lemma_divides_sub(d: nat, x: nat, y: nat)
    requires
        divides(d, x),
        divides(d, y),
        y <= x,
    ensures
        divides(d, (x - y) as nat),
{
    let q = choose|q: nat| #[trigger] (d * q) == x;
    let p = choose|p: nat| #[trigger] (d * p) == y;
    if d == 0 {
        assert(x == 0 && y == 0) by (nonlinear_arith)
            requires
                d == 0,
                d * q == x,
                d * p == y,
        ;
        assert(d * 0 == 0);
    } else {
        assert(q >= p && d * ((q - p) as nat) == x - y) by (nonlinear_arith)
            requires
                d > 0,
                d * q == x,
                d * p == y,
                y <= x,
        ;
    }
}

/// A common divisor of two numbers divides their greatest common divisor.
proof fn lemma_common_divides_gcd(d: nat, a: nat, b: nat)
    requires
        divides(d, a),
        divides(d, b),
    ensures
        divides(d, spec_gcd(a, b)),
    decreases b,
{
    if b > 0 {
        let q = a / b;
        let r = a % b;
        assert(a == b * q + r && b * q <= a) by (nonlinear_arith)
            requires
                b > 0,
                q == a / b,
                r == a % b,
        ;
        lemma_divides_mul(d, b, q);
        lemma_divides_sub(d, a, b * q);
        assert((a - b * q) as nat == r);
        lemma_common_divides_gcd(d, b, r);
    }
}

/// A common divisor of the first `n` member weights divides their divisor.
proof fn lemma_common_divides_divisor(d: nat, ms: Seq<RingMember>, n: int)
    requires
        0 <= n <= ms.len(),
        forall|k: int| 0 <= k < n ==> divides(d, #[trigger] ms[k].2 as nat),
    ensures
        divides(d, weight_divisor(ms, n)),
    decreases n,
{
    if n <= 0 {
        assert(d * 0 == 0);
    } else {
        lemma_common_divides_divisor(d, ms, n - 1);
        lemma_common_divides_gcd(d, weight_divisor(ms, n - 1), ms[n - 1].2 as nat);
    }
}

/// Two member lists with the same weights, each found in the other, share
/// their weight divisor.
proof fn lemma_same_weights_same_divisor(ms1: Seq<RingMember>, ms2: Seq<RingMember>)
    requires
        forall|k: int| 0 <= k < ms1.len() ==> #[trigger] ms1[k].2 > 0,
        forall|k: int| 0 <= k < ms2.len() ==> #[trigger] ms2[k].2 > 0,
        forall|a: int| 0 <= a < ms1.len() ==> exists|b: int| 0 <= b < ms2.len() && #[trigger] ms2[b].2 == #[trigger] ms1[a].2,
        forall|b: int| 0 <= b < ms2.len() ==> exists|a: int| 0 <= a < ms1.len() && #[trigger] ms1[a].2 == #[trigger] ms2[b].2,
        ms1.len() > 0,
        ms2.len() > 0,
    ensures
        weight_divisor(ms1, ms1.len() as int) == weight_divisor(ms2, ms2.len() as int),
{
    let g1 = weight_divisor(ms1, ms1.len() as int);
    let g2 = weight_divisor(ms2, ms2.len() as int);
    lemma_weight_divisor(ms1, ms1.len() as int);
    lemma_weight_divisor(ms2, ms2.len() as int);
    assert forall|b: int| 0 <= b < ms2.len() implies divides(g1, #[trigger] ms2[b].2 as nat) by {
        let a = choose|a: int| 0 <= a < ms1.len() && #[trigger] ms1[a].2 == ms2[b].2;
        assert(divides(g1, ms1[a].2 as nat));
    }
    assert forall|a: int| 0 <= a < ms1.len() implies divides(g2, #[trigger] ms1[a].2 as nat) by {
        let b = choose|b: int| 0 <= b < ms2.len() && #[trigger] ms2[b].2 == ms1[a].2;
        assert(divides(g2, ms2[b].2 as nat));
    }
    lemma_common_divides_divisor(g1, ms2, ms2.len() as int);
    lemma_common_divides_divisor(g2, ms1, ms1.len() as int);
    lemma_divides_le(g1, g2);
    lemma_divides_le(g2, g1);
}

/// Replica `r` of member `k`.
pub open spec fn point_of(ms: Seq<RingMember>, k: int, r: int) -> Point {
    Point {
        position: spec_hash_point(ms[k].0, r as u64),
        owner_hash: spec_hash_identity(ms[k].0),
        replica: r as u64,
        index: ms[k].1,
    }
}

/// A point's position, owner hash and replica: everything but the slice
/// index it reports.
pub open spec fn point_site(p: Point) -> (u64, u64, u64) {
    (p.position, p.owner_hash, p.replica)
}

/// Whether `ps` holds a point at the same site as `p`.
pub open spec fn has_site(ps: Seq<Point>, p: Point) -> bool {
    exists|j: int| 0 <= j < ps.len() && point_site(#[trigger] ps[j]) == point_site(p)
}

proof fn lemma_ring_point_owner(ms: Seq<RingMember>, per: u32, n: int, q: int) -> (kr: (int, int))
    requires
        0 <= n <= ms.len(),
        0 <= q < ring_points(ms, per, n).len(),
    ensures
        0 <= kr.0 < n,
        0 <= kr.1 < member_replicas(ms, per, kr.0),
        ring_points(ms, per, n)[q] == point_of(ms, kr.0, kr.1),
    decreases n,
{
    lemma_member_replicas_nonneg(ms, per, n - 1);
    let prev = ring_points(ms, per, n - 1);
    if q < prev.len() {
        lemma_ring_point_owner(ms, per, n - 1, q)
    } else {
        let mine = member_points(ms, per, n - 1);
        assert(ring_points(ms, per, n)[q] == mine[q - prev.len()]);
        (n - 1, q - prev.len())
    }
}

proof fn lemma_ring_point_present(ms: Seq<RingMember>, per: u32, n: int, k: int, r: int)
    requires
        0 <= k < n <= ms.len(),
        0 <= r < member_replicas(ms, per, k),
    ensures
        ring_points(ms, per, n).contains(point_of(ms, k, r)),
    decreases n,
{
    lemma_member_replicas_nonneg(ms, per, n - 1);
    let prev = ring_points(ms, per, n - 1);
    let cur = ring_points(ms, per, n);
    if k < n - 1 {
        lemma_ring_point_present(ms, per, n - 1, k, r);
        let q = choose|q: int| 0 <= q < prev.len() && prev[q] == point_of(ms, k, r);
        assert(cur[q] == prev[q]);
    } else {
        assert(cur[prev.len() + r] == member_points(ms, per, n - 1)[r]);
    }
}

/// The ring choice for a request is the least point, in ring order, among
/// those at or after the request, or the least of all when none is; so when
/// each ring holds a point at the site of the other's choice, the two
/// choices share their site.
proof fn lemma_choice_sites(p1: Seq<Point>, p2: Seq<Point>, request: u64, k1: int, k2: int)
    requires
        sorted_by(p1),
        sorted_by(p2),
        ring_choice(p1, request, k1),
        ring_choice(p2, request, k2),
        has_site(p2, p1[k1]),
        has_site(p1, p2[k2]),
    ensures
        point_site(p1[k1]) == point_site(p2[k2]),
{
    let j1 = choose|j: int| 0 <= j < p1.len() && point_site(#[trigger] p1[j]) == point_site(p2[k2]);
    let j2 = choose|j: int| 0 <= j < p2.len() && point_site(#[trigger] p2[j]) == point_site(p1[k1]);
    if p2[k2].position >= request {
        assert(p1[j1].position >= request);
        assert(p1[k1].position >= request) by {
            if p1[k1].position < request {
                assert(p1[j1].position < request);
            }
        }
        assert(j1 >= k1) by {
            if j1 < k1 {
                assert(p1[j1].position < request);
            }
        }
        assert(p1[k1].key_le(p1[j1]));
        assert(j2 >= k2) by {
            if j2 < k2 {
                assert(p2[j2].position < request);
            }
        }
        assert(p2[k2].key_le(p2[j2]));
    } else {
        assert(k2 == 0);
        assert(p2[j2].position < request);
        assert(p1[k1].position < request);
        assert(k1 == 0);
        assert(p1[k1].key_le(p1[j1]));
        assert(p2[k2].key_le(p2[j2]));
    }
}

/// Every eligible candidate among the first `n` is a member.
pub(crate) proof fn lemma_member_of_candidate<C: Candidate>(cs: Seq<C>, n: int, i: int) -> (k: int) where C::Id: StableKey
    requires
        0 <= i < n <= cs.len(),
        cs.len() <= usize::MAX,
        eligible_at(cs, i),
    ensures
        0 <= k < eligible_members(cs, n).len(),
        eligible_members(cs, n)[k].1 == i,
    decreases n,
{
    if i == n - 1 {
        eligible_members(cs, n - 1).len() as int
    } else {
        let k = lemma_member_of_candidate(cs, n - 1, i);
        if eligible_at(cs, n - 1) {
            assert(eligible_members(cs, n)[k] == eligible_members(cs, n - 1)[k]);
        }
        k
    }
}

/// What a member of a candidate slice records: an eligible slot, its
/// identity and its weight.
pub(crate) proof fn lemma_member_facts<C: Candidate>(cs: Seq<C>, k: int) where C::Id: StableKey
    requires
        cs.len() <= usize::MAX,
        0 <= k < candidate_members(cs).len(),
    ensures
        eligible_at(cs, candidate_members(cs)[k].1 as int),
        candidate_members(cs)[k].0 == key_at(cs, candidate_members(cs)[k].1 as int),
        candidate_members(cs)[k].2 == cs[candidate_members(cs)[k].1 as int].spec_weight()@,
{
    lemma_eligible_members(cs, cs.len() as int);
    assert(eligible_members(cs, cs.len() as int)[k].1 < cs.len());
}

/// The member and replica behind a ring point.
proof fn lemma_point_owner(points: Seq<Point>, ms: Seq<RingMember>, per: u32, q: int) -> (kr: (int, int))
    requires
        is_ring_of(points, ms, per),
        0 <= q < points.len(),
    ensures
        0 <= kr.0 < ms.len(),
        0 <= kr.1 < member_replicas(ms, per, kr.0),
        points[q] == point_of(ms, kr.0, kr.1),
{
    let all = ring_points(ms, per, ms.len() as int);
    assert(points.to_multiset().count(points[q]) > 0);
    assert(all.contains(points[q]));
    let j = choose|j: int| 0 <= j < all.len() && all[j] == points[q];
    lemma_ring_point_owner(ms, per, ms.len() as int, j)
}

/// A ring holds every replica point of every member.
proof fn lemma_point_present(points: Seq<Point>, ms: Seq<RingMember>, per: u32, k: int, r: int)
    requires
        is_ring_of(points, ms, per),
        0 <= k < ms.len(),
        0 <= r < member_replicas(ms, per, k),
    ensures
        has_site(points, point_of(ms, k, r)),
{
    let all = ring_points(ms, per, ms.len() as int);
    lemma_ring_point_present(ms, per, ms.len() as int, k, r);
    assert(all.to_multiset().count(point_of(ms, k, r)) > 0);
    assert(points.contains(point_of(ms, k, r)));
    let j = choose|j: int| 0 <= j < points.len() && points[j] == point_of(ms, k, r);
    assert(point_site(points[j]) == point_site(point_of(ms, k, r)));
}

/// Two members with one identity and one weight, in member lists that share
/// their weight divisor, have the same replica points, sites alike.
proof fn lemma_twin_sites(ms1: Seq<RingMember>, ms2: Seq<RingMember>, per: u32, a: int, b: int, r: int)
    requires
        0 <= a < ms1.len(),
        0 <= b < ms2.len(),
        ms1[a].0 == ms2[b].0,
        ms1[a].2 == ms2[b].2,
        weight_divisor(ms1, ms1.len() as int) == weight_divisor(ms2, ms2.len() as int),
    ensures
        member_replicas(ms1, per, a) == member_replicas(ms2, per, b),
        point_site(point_of(ms1, a, r)) == point_site(point_of(ms2, b, r)),
{
}

/// A member of one ordering of some candidates has a twin, with its
/// identity and weight, among the members of another ordering.
pub(crate) proof fn lemma_twin_member<C: Candidate>(from: Seq<C>, to: Seq<C>, a: int) -> (b: int) where C::Id: StableKey
    requires
        from.len() <= usize::MAX,
        to.len() <= usize::MAX,
        from.to_multiset() == to.to_multiset(),
        0 <= a < candidate_members(from).len(),
    ensures
        0 <= b < candidate_members(to).len(),
        candidate_members(to)[b].0 == candidate_members(from)[a].0,
        candidate_members(to)[b].2 == candidate_members(from)[a].2,
{
    broadcast use vstd::seq_lib::group_to_multiset_ensures;

    lemma_member_facts(from, a);
    let i = candidate_members(from)[a].1 as int;
    assert(from.to_multiset().count(from[i]) > 0);
    let j = choose|j: int| 0 <= j < to.len() && to[j] == from[i];
    let b = lemma_member_of_candidate(to, to.len() as int, j);
    lemma_member_facts(to, b);
    b
}

/// Every member weight is positive when every eligible weight is.
proof fn lemma_member_weights_positive<C: Candidate>(cs: Seq<C>) where C::Id: StableKey
    requires
        cs.len() <= usize::MAX,
        forall|i: int| eligible_at(cs, i) ==> #[trigger] cs[i].spec_weight()@ > 0,
    ensures
        forall|k: int| 0 <= k < candidate_members(cs).len() ==> #[trigger] candidate_members(cs)[k].2 > 0,
{
    assert forall|k: int| 0 <= k < candidate_members(cs).len() implies #[trigger] candidate_members(cs)[k].2 > 0 by {
        lemma_member_facts(cs, k);
    }
}

/// The ring point a request chooses does not depend on candidate order:
/// over any reordering of the same candidates, it belongs to the same
/// identity, provided no two distinct eligible identities share an identity
/// hash.
pub proof fn lemma_ring_order_independent<C: Candidate>(
    left: Seq<C>,
    right: Seq<C>,
    per: u32,
    left_ring: Seq<Point>,
    right_ring: Seq<Point>,
    request: u64,
    kl: int,
    kr: int,
) where C::Id: StableKey
    requires
        left.len() <= usize::MAX,
        left.to_multiset() == right.to_multiset(),
        forall|i: int| eligible_at(left, i) ==> #[trigger] left[i].spec_weight()@ > 0,
        forall|i: int, j: int|
            eligible_at(left, i) && eligible_at(left, j) && key_at(left, i) != key_at(left, j) ==> spec_hash_identity(
                #[trigger] key_at(left, i),
            ) != spec_hash_identity(#[trigger] key_at(left, j)),
        is_ring_of(left_ring, candidate_members(left), per),
        is_ring_of(right_ring, candidate_members(right), per),
        ring_choice(left_ring, request, kl),
        ring_choice(right_ring, request, kr),
    ensures
        key_at(left, left_ring[kl].index as int) == key_at(right, right_ring[kr].index as int),
{
    broadcast use vstd::seq_lib::group_to_multiset_ensures;

    let ml = candidate_members(left);
    let mr = candidate_members(right);
    assert(right.len() == left.len()) by {
        vstd::seq_lib::to_multiset_len(left);
        vstd::seq_lib::to_multiset_len(right);
    }
    assert forall|j: int| eligible_at(right, j) implies #[trigger] right[j].spec_weight()@ > 0 by {
        vstd::seq_lib::to_multiset_contains(right, right[j]);
        vstd::seq_lib::to_multiset_contains(left, right[j]);
        let i = choose|i: int| 0 <= i < left.len() && left[i] == right[j];
        assert(eligible_at(left, i));
    }
    lemma_member_weights_positive(left);
    lemma_member_weights_positive(right);
    assert forall|a: int| 0 <= a < ml.len() implies exists|b: int|
        0 <= b < mr.len() && #[trigger] mr[b].2 == #[trigger] ml[a].2 by {
        let b = lemma_twin_member(left, right, a);
        assert(mr[b].2 == ml[a].2);
    }
    assert forall|b: int| 0 <= b < mr.len() implies exists|a: int|
        0 <= a < ml.len() && #[trigger] ml[a].2 == #[trigger] mr[b].2 by {
        let a = lemma_twin_member(right, left, b);
        assert(ml[a].2 == mr[b].2);
    }
    let (a, t) = lemma_point_owner(left_ring, ml, per, kl);
    let (b, u) = lemma_point_owner(right_ring, mr, per, kr);
    lemma_same_weights_same_divisor(ml, mr);
    // The left choice has a twin site in the right ring, and the other way round.
    let b2 = lemma_twin_member(left, right, a);
    lemma_twin_sites(ml, mr, per, a, b2, t);
    lemma_point_present(right_ring, mr, per, b2, t);
    let a2 = lemma_twin_member(right, left, b);
    lemma_twin_sites(ml, mr, per, a2, b, u);
    lemma_point_present(left_ring, ml, per, a2, u);
    lemma_choice_sites(left_ring, right_ring, request, kl, kr);
    // Equal identity hashes of eligible identities mean equal identities.
    lemma_member_facts(left, a);
    lemma_member_facts(left, a2);
    lemma_member_facts(right, b);
    assert(spec_hash_identity(ml[a].0) == spec_hash_identity(ml[a2].0));
}

/// A member of one candidate slice has a twin, with its identity and weight,
/// among the members of another slice that holds its candidate at `j`.
proof fn lemma_twin_at<C: Candidate>(from: Seq<C>, to: Seq<C>, a: int, j: int) -> (b: int) where C::Id: StableKey
    requires
        from.len() <= usize::MAX,
        to.len() <= usize::MAX,
        0 <= a < candidate_members(from).len(),
        0 <= j < to.len(),
        to[j] == from[candidate_members(from)[a].1 as int],
    ensures
        0 <= b < candidate_members(to).len(),
        candidate_members(to)[b].0 == candidate_members(from)[a].0,
        candidate_members(to)[b].2 == candidate_members(from)[a].2,
{
    lemma_member_facts(from, a);
    let b = lemma_member_of_candidate(to, to.len() as int, j);
    lemma_member_facts(to, b);
    b
}

/// Adding or removing one candidate never moves a request between two other
/// identities while the weight divisor stays the same: when the request's
/// owner in the ring with the candidate is another identity, that identity
/// also owns it in the ring without the candidate. Read one way this is an
/// addition, read the other a removal. Distinct eligible identities are
/// assumed to have distinct identity hashes.
pub proof fn lemma_ring_change_keeps_other_owners<C: Candidate>(
    cs: Seq<C>,
    at: int,
    added: C,
    per: u32,
    small_ring: Seq<Point>,
    grown_ring: Seq<Point>,
    request: u64,
    ks: int,
    kg: int,
) where C::Id: StableKey
    requires
        0 <= at <= cs.len(),
        cs.len() < usize::MAX,
        forall|i: int| eligible_at(cs.insert(at, added), i) ==> #[trigger] cs.insert(at, added)[i].spec_weight()@ > 0,
        forall|i: int, j: int|
            eligible_at(cs.insert(at, added), i) && eligible_at(cs.insert(at, added), j) && key_at(
                cs.insert(at, added),
                i,
            ) != key_at(cs.insert(at, added), j) ==> spec_hash_identity(#[trigger] key_at(cs.insert(at, added), i))
                != spec_hash_identity(#[trigger] key_at(cs.insert(at, added), j)),
        weight_divisor(candidate_members(cs), candidate_members(cs).len() as int) == weight_divisor(
            candidate_members(cs.insert(at, added)),
            candidate_members(cs.insert(at, added)).len() as int,
        ),
        is_ring_of(small_ring, candidate_members(cs), per),
        is_ring_of(grown_ring, candidate_members(cs.insert(at, added)), per),
        ring_choice(small_ring, request, ks),
        ring_choice(grown_ring, request, kg),
        key_at(cs.insert(at, added), grown_ring[kg].index as int) != added.spec_id().key_bytes(),
    ensures
        key_at(cs.insert(at, added), grown_ring[kg].index as int) == key_at(cs, small_ring[ks].index as int),
{
    let grown = cs.insert(at, added);
    let ms = candidate_members(cs);
    let mg = candidate_members(grown);
    let (a, t) = lemma_point_owner(small_ring, ms, per, ks);
    let (b, u) = lemma_point_owner(grown_ring, mg, per, kg);
    // The small ring's choice sits in the grown ring too.
    lemma_member_facts(cs, a);
    let i = ms[a].1 as int;
    let gi = if i < at { i } else { i + 1 };
    assert(grown[gi] == cs[i]);
    let b2 = lemma_twin_at(cs, grown, a, gi);
    lemma_twin_sites(ms, mg, per, a, b2, t);
    lemma_point_present(grown_ring, mg, per, b2, t);
    // The grown ring's choice is not the added candidate, so it sits in the
    // small ring too.
    lemma_member_facts(grown, b);
    let j = mg[b].1 as int;
    assert(j != at);
    let sj = if j < at { j } else { j - 1 };
    assert(cs[sj] == grown[j]);
    let a2 = lemma_twin_at(grown, cs, b, sj);
    lemma_twin_sites(ms, mg, per, a2, b, u);
    lemma_point_present(small_ring, ms, per, a2, u);
    lemma_choice_sites(small_ring, grown_ring, request, ks, kg);
    // Equal identity hashes of eligible identities mean equal identities.
    lemma_member_facts(grown, b2);
    assert(spec_hash_identity(mg[b].0) == spec_hash_identity(mg[b2].0));
    assert(eligible_at(grown, mg[b2].1 as int));
}

} // verus!
