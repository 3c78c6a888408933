use vstd::prelude::*;
use vstd::string::StringSliceAdditionalSpecFns;

verus! {

/// FNV-1a 64-bit offset basis.
pub const FNV_OFFSET_BASIS: u64 = 0xcbf2_9ce4_8422_2325;

/// FNV-1a 64-bit prime.
pub const FNV_PRIME: u64 = 0x0000_0100_0000_01b3;

/// One FNV-1a round: xor the byte in, then multiply by the prime modulo 2^64.
pub open spec fn fnv_step(state: u64, byte: u8) -> u64 {
    ((((state ^ (byte as u64)) as nat) * (FNV_PRIME as nat)) % 0x1_0000_0000_0000_0000nat) as u64
}

/// FNV-1a state after absorbing `bytes` starting from `state`.
pub open spec fn spec_fnv(state: u64, bytes: Seq<u8>) -> u64
    decreases bytes.len(),
{
    if bytes.len() == 0 {
        state
    } else {
        fnv_step(spec_fnv(state, bytes.drop_last()), bytes.last())
    }
}

/// The FNV-1a 64-bit hash of `bytes`.
pub open spec fn fnv1a(bytes: Seq<u8>) -> u64 {
    spec_fnv(FNV_OFFSET_BASIS, bytes)
}

/// Absorbing two byte strings one after the other is absorbing their concatenation.
pub proof fn lemma_fnv_concat(state: u64, a: Seq<u8>, b: Seq<u8>)
    ensures
        spec_fnv(spec_fnv(state, a), b) == spec_fnv(state, a + b),
    decreases b.len(),
{
    if b.len() == 0 {
        assert(a + b =~= a);
    } else {
        lemma_fnv_concat(state, a, b.drop_last());
        assert((a + b).drop_last() =~= a + b.drop_last());
        assert((a + b).last() == b.last());
    }
}

/// The eight little-endian bytes of a `u64`.
pub open spec fn le_bytes_u64(x: u64) -> Seq<u8> {
    seq![
        x as u8,
        (x >> 8u64) as u8,
        (x >> 16u64) as u8,
        (x >> 24u64) as u8,
        (x >> 32u64) as u8,
        (x >> 40u64) as u8,
        (x >> 48u64) as u8,
        (x >> 56u64) as u8,
    ]
}

/// The sixteen little-endian bytes of a `u128`.
pub open spec fn le_bytes_u128(x: u128) -> Seq<u8> {
    le_bytes_u64(x as u64) + le_bytes_u64((x >> 64u128) as u64)
}

/// The four little-endian bytes of a `u32`.
pub open spec fn le_bytes_u32(x: u32) -> Seq<u8> {
    seq![x as u8, (x >> 8u32) as u8, (x >> 16u32) as u8, (x >> 24u32) as u8]
}

/// The two little-endian bytes of a `u16`.
pub open spec fn le_bytes_u16(x: u16) -> Seq<u8> {
    seq![x as u8, (x >> 8u16) as u8]
}

/// The `SplitMix64` avalanche finalizer with wrapping multiplication.
pub open spec fn spec_mix64(value: u64) -> u64 {
    let a = value ^ (value >> 30u64);
    let b = ((a as nat * 0xbf58_476d_1ce4_e5b9nat) % 0x1_0000_0000_0000_0000nat) as u64;
    let c = b ^ (b >> 27u64);
    let d = ((c as nat * 0x94d0_49bb_1331_11ebnat) % 0x1_0000_0000_0000_0000nat) as u64;
    d ^ (d >> 31u64)
}

/// Applies a deterministic avalanche finalizer to a 64-bit hash.
///
/// Keyed policies use this bijective `SplitMix64` finalizer before
/// interpreting hash magnitude. The constants and wrapping operations are part
/// of the compatibility contract.
pub fn mix64(value: u64) -> (r: u64)
    ensures
        r == spec_mix64(value),
{
    let a = value ^ (value >> 30u64);
    let b = a.wrapping_mul(0xbf58_476d_1ce4_e5b9u64);
    let c = b ^ (b >> 27u64);
    let d = c.wrapping_mul(0x94d0_49bb_1331_11ebu64);
    d ^ (d >> 31u64)
}

/// A deterministic 64-bit FNV-1a hasher.
///
/// This is provided for repeatable policy decisions, not for adversarial hash
/// tables or cryptographic use. Its byte-level algorithm is part of the
/// compatibility contract: integers are written as their little-endian bytes.
#[derive(Clone, Debug)]
pub struct Fnv1a64 {
    state: u64,
}

impl View for Fnv1a64 {
    type V = u64;

    closed spec fn view(&self) -> u64 {
        self.state
    }
}

impl Default for Fnv1a64 {
    fn default() -> (h: Self)
        ensures
            h@ == FNV_OFFSET_BASIS,
    {
        Fnv1a64 { state: FNV_OFFSET_BASIS }
    }
}

impl Fnv1a64 {
    /// Creates a hasher at the FNV offset basis.
    pub fn new() -> (h: Self)
        ensures
            h@ == FNV_OFFSET_BASIS,
    {
        Fnv1a64 { state: FNV_OFFSET_BASIS }
    }

    /// Returns the current hash.
    pub fn finish(&self) -> (r: u64)
        ensures
            r == self@,
    {
        self.state
    }

    /// Absorbs one byte.
    pub fn write_u8(&mut self, value: u8)
        ensures
            final(self)@ == fnv_step(old(self)@, value),
    {
        let x = self.state ^ (value as u64);
        self.state = x.wrapping_mul(FNV_PRIME);
    }

    /// Absorbs a byte string in order.
    pub fn write(&mut self, bytes: &[u8])
        ensures
            final(self)@ == spec_fnv(old(self)@, bytes@),
    {
        let ghost start = self@;
        let n = bytes.len();
        let mut i: usize = 0;
        while i < n
            invariant
                n == bytes@.len(),
                i <= n,
                self@ == spec_fnv(start, bytes@.take(i as int)),
            decreases n - i,
        {
            let b = bytes[i];
            self.write_u8(b);
            proof {
                assert(bytes@.take(i + 1).drop_last() =~= bytes@.take(i as int));
            }
            i = i + 1;
        }
        proof {
            assert(bytes@.take(n as int) =~= bytes@);
        }
    }

    /// Absorbs the two little-endian bytes of `value`.
    pub fn write_u16(&mut self, value: u16)
        ensures
            final(self)@ == spec_fnv(old(self)@, le_bytes_u16(value)),
    {
        let bytes = [value as u8, (value >> 8u16) as u8];
        proof {
            assert(bytes@ =~= le_bytes_u16(value));
        }
        self.write(&bytes);
    }

    /// Absorbs the four little-endian bytes of `value`.
    pub fn write_u32(&mut self, value: u32)
        ensures
            final(self)@ == spec_fnv(old(self)@, le_bytes_u32(value)),
    {
        let bytes = [value as u8, (value >> 8u32) as u8, (value >> 16u32) as u8, (value >> 24u32) as u8];
        proof {
            assert(bytes@ =~= le_bytes_u32(value));
        }
        self.write(&bytes);
    }

    /// Absorbs the eight little-endian bytes of `value`.
    pub fn write_u64(&mut self, value: u64)
        ensures
            final(self)@ == spec_fnv(old(self)@, le_bytes_u64(value)),
    {
        let bytes = [
            value as u8,
            (value >> 8u64) as u8,
            (value >> 16u64) as u8,
            (value >> 24u64) as u8,
            (value >> 32u64) as u8,
            (value >> 40u64) as u8,
            (value >> 48u64) as u8,
            (value >> 56u64) as u8,
        ];
        proof {
            assert(bytes@ =~= le_bytes_u64(value));
        }
        self.write(&bytes);
    }

    /// Absorbs the sixteen little-endian bytes of `value`.
    pub fn write_u128(&mut self, value: u128)
        ensures
            final(self)@ == spec_fnv(old(self)@, le_bytes_u128(value)),
    {
        let ghost start = self@;
        self.write_u64(value as u64);
        self.write_u64((value >> 64u128) as u64);
        proof {
            lemma_fnv_concat(start, le_bytes_u64(value as u64), le_bytes_u64((value >> 64u128) as u64));
        }
    }

    /// Absorbs an `i128` as the little-endian bytes of its two's complement.
    pub fn write_i128(&mut self, value: i128)
        ensures
            final(self)@ == spec_fnv(old(self)@, le_bytes_u128(value as u128)),
    {
        self.write_u128(value as u128);
    }

    /// Absorbs a `usize` as the eight little-endian bytes of its `u64` value.
    pub fn write_usize(&mut self, value: usize)
        ensures
            final(self)@ == spec_fnv(old(self)@, le_bytes_u64(value as u64)),
    {
        self.write_u64(value as u64);
    }

    /// Absorbs an `i8` as its two's-complement byte.
    pub fn write_i8(&mut self, value: i8)
        ensures
            final(self)@ == fnv_step(old(self)@, value as u8),
    {
        self.write_u8(value as u8);
    }

    /// Absorbs an `i16` as the little-endian bytes of its two's complement.
    pub fn write_i16(&mut self, value: i16)
        ensures
            final(self)@ == spec_fnv(old(self)@, le_bytes_u16(value as u16)),
    {
        self.write_u16(value as u16);
    }

    /// Absorbs an `i32` as the little-endian bytes of its two's complement.
    pub fn write_i32(&mut self, value: i32)
        ensures
            final(self)@ == spec_fnv(old(self)@, le_bytes_u32(value as u32)),
    {
        self.write_u32(value as u32);
    }

    /// Absorbs an `i64` as the little-endian bytes of its two's complement.
    pub fn write_i64(&mut self, value: i64)
        ensures
            final(self)@ == spec_fnv(old(self)@, le_bytes_u64(value as u64)),
    {
        self.write_u64(value as u64);
    }

    /// Absorbs an `isize` as the eight little-endian bytes of its `i64` value.
    pub fn write_isize(&mut self, value: isize)
        ensures
            final(self)@ == spec_fnv(old(self)@, le_bytes_u64(value as i64 as u64)),
    {
        self.write_i64(value as i64);
    }
}

/// A value with a stable byte encoding, used as a request key or a backend
/// identity by the keyed policies.
///
/// The encoding matches the standard `Hash` byte stream for the implementing
/// types: integers are little-endian, strings are their UTF-8 bytes followed by
/// `0xff`. Two values are the same key exactly when their encodings agree.
pub trait StableKey {
    /// The encoded bytes.
    spec fn key_bytes(&self) -> Seq<u8>;

    /// Absorbs the encoding into `hasher`.
    fn hash_into(&self, hasher: &mut Fnv1a64)
        ensures
            final(hasher)@ == spec_fnv(old(hasher)@, self.key_bytes()),
    ;

    /// Returns the encoding as an owned byte vector.
    fn encode(&self) -> (v: Vec<u8>)
        ensures
            v@ == self.key_bytes(),
    ;

    /// Compares two keys by their encodings.
    fn same_key(&self, other: &Self) -> (b: bool)
        ensures
            b <==> self.key_bytes() == other.key_bytes(),
    ;
}

proof fn lemma_u64_bytes_injective(x: u64, y: u64)
    requires
        le_bytes_u64(x) == le_bytes_u64(y),
    ensures
        x == y,
{
    assert(le_bytes_u64(x)[0] == le_bytes_u64(y)[0]);
    assert(le_bytes_u64(x)[1] == le_bytes_u64(y)[1]);
    assert(le_bytes_u64(x)[2] == le_bytes_u64(y)[2]);
    assert(le_bytes_u64(x)[3] == le_bytes_u64(y)[3]);
    assert(le_bytes_u64(x)[4] == le_bytes_u64(y)[4]);
    assert(le_bytes_u64(x)[5] == le_bytes_u64(y)[5]);
    assert(le_bytes_u64(x)[6] == le_bytes_u64(y)[6]);
    assert(le_bytes_u64(x)[7] == le_bytes_u64(y)[7]);
    assert(x == y) by (bit_vector)
        requires
            x as u8 == y as u8,
            (x >> 8u64) as u8 == (y >> 8u64) as u8,
            (x >> 16u64) as u8 == (y >> 16u64) as u8,
            (x >> 24u64) as u8 == (y >> 24u64) as u8,
            (x >> 32u64) as u8 == (y >> 32u64) as u8,
            (x >> 40u64) as u8 == (y >> 40u64) as u8,
            (x >> 48u64) as u8 == (y >> 48u64) as u8,
            (x >> 56u64) as u8 == (y >> 56u64) as u8,
    ;
}

proof fn lemma_u32_bytes_injective(x: u32, y: u32)
    requires
        le_bytes_u32(x) == le_bytes_u32(y),
    ensures
        x == y,
{
    assert(le_bytes_u32(x)[0] == le_bytes_u32(y)[0]);
    assert(le_bytes_u32(x)[1] == le_bytes_u32(y)[1]);
    assert(le_bytes_u32(x)[2] == le_bytes_u32(y)[2]);
    assert(le_bytes_u32(x)[3] == le_bytes_u32(y)[3]);
    assert(x == y) by (bit_vector)
        requires
            x as u8 == y as u8,
            (x >> 8u32) as u8 == (y >> 8u32) as u8,
            (x >> 16u32) as u8 == (y >> 16u32) as u8,
            (x >> 24u32) as u8 == (y >> 24u32) as u8,
    ;
}

impl StableKey for u64 {
    open spec fn key_bytes(&self) -> Seq<u8> {
        le_bytes_u64(*self)
    }

    fn hash_into(&self, hasher: &mut Fnv1a64) {
        hasher.write_u64(*self);
    }

    fn encode(&self) -> (v: Vec<u8>) {
        let x = *self;
        let v = vec![
            x as u8,
            (x >> 8u64) as u8,
            (x >> 16u64) as u8,
            (x >> 24u64) as u8,
            (x >> 32u64) as u8,
            (x >> 40u64) as u8,
            (x >> 48u64) as u8,
            (x >> 56u64) as u8,
        ];
        proof {
            assert(v@ =~= le_bytes_u64(x));
        }
        v
    }

    fn same_key(&self, other: &Self) -> (b: bool) {
        proof {
            if le_bytes_u64(*self) == le_bytes_u64(*other) {
                lemma_u64_bytes_injective(*self, *other);
            }
        }
        *self == *other
    }
}

impl StableKey for usize {
    open spec fn key_bytes(&self) -> Seq<u8> {
        le_bytes_u64(*self as u64)
    }

    fn hash_into(&self, hasher: &mut Fnv1a64) {
        hasher.write_usize(*self);
    }

    fn encode(&self) -> (v: Vec<u8>) {
        (*self as u64).encode()
    }

    fn same_key(&self, other: &Self) -> (b: bool) {
        proof {
            if le_bytes_u64(*self as u64) == le_bytes_u64(*other as u64) {
                lemma_u64_bytes_injective(*self as u64, *other as u64);
            }
        }
        *self == *other
    }
}

impl StableKey for u32 {
    open spec fn key_bytes(&self) -> Seq<u8> {
        le_bytes_u32(*self)
    }

    fn hash_into(&self, hasher: &mut Fnv1a64) {
        hasher.write_u32(*self);
    }

    fn encode(&self) -> (v: Vec<u8>) {
        let x = *self;
        let v = vec![x as u8, (x >> 8u32) as u8, (x >> 16u32) as u8, (x >> 24u32) as u8];
        proof {
            assert(v@ =~= le_bytes_u32(x));
        }
        v
    }

    fn same_key(&self, other: &Self) -> (b: bool) {
        proof {
            if le_bytes_u32(*self) == le_bytes_u32(*other) {
                lemma_u32_bytes_injective(*self, *other);
            }
        }
        *self == *other
    }
}

impl StableKey for i32 {
    open spec fn key_bytes(&self) -> Seq<u8> {
        le_bytes_u32(*self as u32)
    }

    fn hash_into(&self, hasher: &mut Fnv1a64) {
        hasher.write_i32(*self);
    }

    fn encode(&self) -> (v: Vec<u8>) {
        (*self as u32).encode()
    }

    fn same_key(&self, other: &Self) -> (b: bool) {
        proof {
            if le_bytes_u32(*self as u32) == le_bytes_u32(*other as u32) {
                lemma_u32_bytes_injective(*self as u32, *other as u32);
                let x = *self;
                let y = *other;
                assert(x == y) by (bit_vector)
                    requires
                        x as u32 == y as u32,
                ;
            }
        }
        *self == *other
    }
}

impl StableKey for i64 {
    open spec fn key_bytes(&self) -> Seq<u8> {
        le_bytes_u64(*self as u64)
    }

    fn hash_into(&self, hasher: &mut Fnv1a64) {
        hasher.write_i64(*self);
    }

    fn encode(&self) -> (v: Vec<u8>) {
        (*self as u64).encode()
    }

    fn same_key(&self, other: &Self) -> (b: bool) {
        proof {
            if le_bytes_u64(*self as u64) == le_bytes_u64(*other as u64) {
                lemma_u64_bytes_injective(*self as u64, *other as u64);
                let x = *self;
                let y = *other;
                assert(x == y) by (bit_vector)
                    requires
                        x as u64 == y as u64,
                ;
            }
        }
        *self == *other
    }
}

impl StableKey for () {
    open spec fn key_bytes(&self) -> Seq<u8> {
        Seq::empty()
    }

    fn hash_into(&self, hasher: &mut Fnv1a64) {
    }

    fn encode(&self) -> (v: Vec<u8>) {
        let v: Vec<u8> = Vec::new();
        proof {
            assert(v@ =~= Seq::<u8>::empty());
        }
        v
    }

    fn same_key(&self, other: &Self) -> (b: bool) {
        true
    }
}

/// Compares two byte strings element by element.
pub fn bytes_equal(a: &[u8], b: &[u8]) -> (r: bool)
    ensures
        r <==> a@ == b@,
{
    if a.len() != b.len() {
        return false;
    }
    let n = a.len();
    let mut i: usize = 0;
    while i < n
        invariant
            n == a@.len(),
            n == b@.len(),
            i <= n,
            forall|j: int| 0 <= j < i ==> a@[j] == b@[j],
        decreases n - i,
    {
        if a[i] != b[i] {
            return false;
        }
        i = i + 1;
    }
    proof {
        assert(a@ =~= b@);
    }
    true
}

impl StableKey for str {
    open spec fn key_bytes(&self) -> Seq<u8> {
        self.spec_bytes().push(0xffu8)
    }

    fn hash_into(&self, hasher: &mut Fnv1a64) {
        let ghost start = hasher@;
        hasher.write(self.as_bytes());
        hasher.write_u8(0xffu8);
        proof {
            assert(self.spec_bytes().push(0xffu8).drop_last() =~= self.spec_bytes());
        }
    }

    fn encode(&self) -> (v: Vec<u8>) {
        let bytes = self.as_bytes();
        let mut v: Vec<u8> = Vec::new();
        let n = bytes.len();
        let mut i: usize = 0;
        while i < n
            invariant
                n == bytes@.len(),
                i <= n,
                v@ =~= bytes@.take(i as int),
            decreases n - i,
        {
            v.push(bytes[i]);
            i = i + 1;
        }
        v.push(0xffu8);
        proof {
            assert(bytes@.take(n as int) =~= bytes@);
        }
        v
    }

    fn same_key(&self, other: &Self) -> (b: bool) {
        let r = bytes_equal(self.as_bytes(), other.as_bytes());
        proof {
            if self.key_bytes() == other.key_bytes() {
                assert(self.spec_bytes() =~= self.key_bytes().drop_last());
                assert(other.spec_bytes() =~= other.key_bytes().drop_last());
            }
        }
        r
    }
}

impl StableKey for String {
    open spec fn key_bytes(&self) -> Seq<u8> {
        vstd::utf8::encode_utf8(self@).push(0xffu8)
    }

    fn hash_into(&self, hasher: &mut Fnv1a64) {
        self.as_str().hash_into(hasher);
    }

    fn encode(&self) -> (v: Vec<u8>) {
        self.as_str().encode()
    }

    fn same_key(&self, other: &Self) -> (b: bool) {
        self.as_str().same_key(other.as_str())
    }
}

impl<'a, T: StableKey + ?Sized> StableKey for &'a T {
    open spec fn key_bytes(&self) -> Seq<u8> {
        (**self).key_bytes()
    }

    fn hash_into(&self, hasher: &mut Fnv1a64) {
        (**self).hash_into(hasher);
    }

    fn encode(&self) -> (v: Vec<u8>) {
        (**self).encode()
    }

    fn same_key(&self, other: &Self) -> (b: bool) {
        (**self).same_key(*other)
    }
}

/// The deterministic default hash builder for keyed policies.
///
/// Every hasher it builds starts at the FNV offset basis.
#[derive(Clone, Copy, Debug, PartialEq, Eq, Structural, Hash)]
pub struct FnvBuildHasher;

impl Default for FnvBuildHasher {
    fn default() -> (b: Self)
        ensures
            b == FnvBuildHasher,
    {
        FnvBuildHasher
    }
}

impl FnvBuildHasher {
    /// Creates a fresh hasher.
    pub fn build_hasher(&self) -> (h: Fnv1a64)
        ensures
            h@ == FNV_OFFSET_BASIS,
    {
        Fnv1a64::new()
    }
}

} // verus!
