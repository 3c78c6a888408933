//! Byte encodings that order values as their type does.

use vstd::prelude::*;
use vstd::string::StringSliceAdditionalSpecFns;

verus! {

/// The eight big-endian bytes of `x`: most significant first, so that
/// lexicographic order of encodings is numeric order.
pub open spec fn be_bytes_u64(x: u64) -> Seq<u8> {
    seq![
        (x >> 56u64) as u8,
        (x >> 48u64) as u8,
        (x >> 40u64) as u8,
        (x >> 32u64) as u8,
        (x >> 24u64) as u8,
        (x >> 16u64) as u8,
        (x >> 8u64) as u8,
        x as u8,
    ]
}

/// The four big-endian bytes of `x`.
pub open spec fn be_bytes_u32(x: u32) -> Seq<u8> {
    seq![(x >> 24u32) as u8, (x >> 16u32) as u8, (x >> 8u32) as u8, x as u8]
}

fn encode_be_u64(x: u64) -> (v: Vec<u8>)
    ensures
        v@ == be_bytes_u64(x),
{
    let v = vec![
        (x >> 56u64) as u8,
        (x >> 48u64) as u8,
        (x >> 40u64) as u8,
        (x >> 32u64) as u8,
        (x >> 24u64) as u8,
        (x >> 16u64) as u8,
        (x >> 8u64) as u8,
        x as u8,
    ];
    proof {
        assert(v@ =~= be_bytes_u64(x));
    }
    v
}

fn encode_be_u32(x: u32) -> (v: Vec<u8>)
    ensures
        v@ == be_bytes_u32(x),
{
    let v = vec![(x >> 24u32) as u8, (x >> 16u32) as u8, (x >> 8u32) as u8, x as u8];
    proof {
        assert(v@ =~= be_bytes_u32(x));
    }
    v
}

/// A value with a byte encoding whose lexicographic order, a proper prefix
/// first, is the order of the type's `Ord`, and which tells distinct values
/// apart. Ordered groupings, such as localities, are sorted by it.
pub trait OrderKey {
    /// The order encoding.
    spec fn order_bytes(&self) -> Seq<u8>;

    /// Returns the order encoding as an owned byte vector.
    fn order_encode(&self) -> (v: Vec<u8>)
        ensures
            v@ == self.order_bytes(),
    ;
}

impl OrderKey for u64 {
    open spec fn order_bytes(&self) -> Seq<u8> {
        be_bytes_u64(*self)
    }

    fn order_encode(&self) -> (v: Vec<u8>) {
        encode_be_u64(*self)
    }
}

impl OrderKey for usize {
    open spec fn order_bytes(&self) -> Seq<u8> {
        be_bytes_u64(*self as u64)
    }

    fn order_encode(&self) -> (v: Vec<u8>) {
        encode_be_u64(*self as u64)
    }
}

impl OrderKey for u32 {
    open spec fn order_bytes(&self) -> Seq<u8> {
        be_bytes_u32(*self)
    }

    fn order_encode(&self) -> (v: Vec<u8>) {
        encode_be_u32(*self)
    }
}

/// Signed values flip their sign bit, so that negatives come first.
impl OrderKey for i32 {
    open spec fn order_bytes(&self) -> Seq<u8> {
        be_bytes_u32((*self as u32) ^ 0x8000_0000u32)
    }

    fn order_encode(&self) -> (v: Vec<u8>) {
        encode_be_u32((*self as u32) ^ 0x8000_0000u32)
    }
}

impl OrderKey for i64 {
    open spec fn order_bytes(&self) -> Seq<u8> {
        be_bytes_u64((*self as u64) ^ 0x8000_0000_0000_0000u64)
    }

    fn order_encode(&self) -> (v: Vec<u8>) {
        encode_be_u64((*self as u64) ^ 0x8000_0000_0000_0000u64)
    }
}

impl OrderKey for () {
    open spec fn order_bytes(&self) -> Seq<u8> {
        Seq::empty()
    }

    fn order_encode(&self) -> (v: Vec<u8>) {
        Vec::new()
    }
}

/// Strings order by their UTF-8 bytes, which is `str`'s own order.
impl OrderKey for str {
    open spec fn order_bytes(&self) -> Seq<u8> {
        self.spec_bytes()
    }

    fn order_encode(&self) -> (v: Vec<u8>) {
        let bytes = self.as_bytes();
        let mut v: Vec<u8> = Vec::new();
        let n = bytes.len();
        let mut i: usize = 0;
        while i < n
            invariant
                n == bytes@.len(),
                i <= n,
                v@ =~= bytes@.take(i as int),
            decreases n - i,
        {
            v.push(bytes[i]);
            i = i + 1;
        }
        proof {
            assert(bytes@.take(n as int) =~= bytes@);
        }
        v
    }
}

impl OrderKey for String {
    open spec fn order_bytes(&self) -> Seq<u8> {
        vstd::utf8::encode_utf8(self@)
    }

    fn order_encode(&self) -> (v: Vec<u8>) {
        self.as_str().order_encode()
    }
}

impl<'a, T: OrderKey + ?Sized> OrderKey for &'a T {
    open spec fn order_bytes(&self) -> Seq<u8> {
        (**self).order_bytes()
    }

    fn order_encode(&self) -> (v: Vec<u8>) {
        (**self).order_encode()
    }
}

} // verus!
