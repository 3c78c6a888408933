//! A merge sort over values with a total preorder.

use vstd::prelude::*;

verus! {

broadcast use vstd::seq_lib::group_to_multiset_ensures;

/// A value type with a total preorder that the sort follows.
pub trait SortKey: Copy {
    /// Whether `self` sorts no later than `other`.
    spec fn key_le(self, other: Self) -> bool;

    /// Any two values are ordered one way or the other.
    proof fn lemma_key_total(a: Self, b: Self)
        ensures
            a.key_le(b) || b.key_le(a),
    ;

    /// The order is transitive.
    proof fn lemma_key_trans(a: Self, b: Self, c: Self)
        requires
            a.key_le(b),
            b.key_le(c),
        ensures
            a.key_le(c),
    ;

    /// Compares two values.
    fn le(&self, other: &Self) -> (r: bool)
        ensures
            r == self.key_le(*other),
    ;
}

/// Whether `s` is in non-decreasing order.
pub open spec fn sorted_by<T: SortKey>(s: Seq<T>) -> bool {
    forall|i: int, j: int| 0 <= i <= j < s.len() ==> (#[trigger] s[i]).key_le(#[trigger] s[j])
}

fn merge<T: SortKey>(a: &Vec<T>, b: &Vec<T>) -> (r: Vec<T>)
    requires
        sorted_by(a@),
        sorted_by(b@),
    ensures
        sorted_by(r@),
        r@.to_multiset() == a@.to_multiset().add(b@.to_multiset()),
{
    let alen = a.len();
    let blen = b.len();
    let mut out: Vec<T> = Vec::new();
    let mut i: usize = 0;
    let mut j: usize = 0;
    proof {
        assert(a@.take(0) =~= Seq::<T>::empty());
        assert(b@.take(0) =~= Seq::<T>::empty());
        assert(out@.to_multiset() =~= a@.take(0).to_multiset().add(b@.take(0).to_multiset()));
    }
    while i < alen || j < blen
        invariant
            alen == a@.len(),
            blen == b@.len(),
            sorted_by(a@),
            sorted_by(b@),
            i <= alen,
            j <= blen,
            out@.len() == i + j,
            sorted_by(out@),
            out@.to_multiset() == a@.take(i as int).to_multiset().add(b@.take(j as int).to_multiset()),
            out@.len() > 0 && i < alen ==> out@.last().key_le(a@[i as int]),
            out@.len() > 0 && j < blen ==> out@.last().key_le(b@[j as int]),
        decreases alen + blen - i - j,
    {
        let take_a = if j == blen {
            true
        } else if i == alen {
            false
        } else {
            a[i].le(&b[j])
        };
        let x = if take_a {
            a[i]
        } else {
            b[j]
        };
        proof {
            if take_a {
                assert(x == a@[i as int]);
                if j < blen {
                    assert(x.key_le(b@[j as int]));
                }
            } else {
                assert(x == b@[j as int]);
                if i < alen {
                    T::lemma_key_total(a@[i as int], b@[j as int]);
                    assert(x.key_le(a@[i as int]));
                }
            }
            assert forall|k: int| 0 <= k < out@.len() implies (#[trigger] out@[k]).key_le(x) by {
                assert(out@[k].key_le(out@.last()));
                T::lemma_key_trans(out@[k], out@.last(), x);
            }
        }
        let ghost before = out@;
        out.push(x);
        proof {
            assert forall|p: int, q: int| 0 <= p <= q < out@.len() implies (#[trigger] out@[p]).key_le(
                #[trigger] out@[q],
            ) by {
                if q < before.len() {
                    assert(before[p].key_le(before[q]));
                } else if p < before.len() {
                    assert(before[p].key_le(x));
                } else {
                    T::lemma_key_total(x, x);
                }
            }
        }
        if take_a {
            proof {
                assert(a@.take(i + 1) =~= a@.take(i as int).push(a@[i as int]));
                if i + 1 < alen {
                    assert(a@[i as int].key_le(a@[i + 1]));
                }
            }
            i = i + 1;
        } else {
            proof {
                assert(b@.take(j + 1) =~= b@.take(j as int).push(b@[j as int]));
                if j + 1 < blen {
                    assert(b@[j as int].key_le(b@[j + 1]));
                }
            }
            j = j + 1;
        }
    }
    proof {
        assert(a@.take(alen as int) =~= a@);
        assert(b@.take(blen as int) =~= b@);
    }
    out
}

fn sort_range<T: SortKey>(v: &Vec<T>, lo: usize, hi: usize) -> (r: Vec<T>)
    requires
        lo <= hi <= v@.len(),
    ensures
        sorted_by(r@),
        r@.to_multiset() == v@.subrange(lo as int, hi as int).to_multiset(),
    decreases hi - lo,
{
    if hi - lo <= 1 {
        let mut out: Vec<T> = Vec::new();
        if hi - lo == 1 {
            out.push(v[lo]);
            proof {
                assert(out@ =~= v@.subrange(lo as int, hi as int));
                T::lemma_key_total(v@[lo as int], v@[lo as int]);
            }
        } else {
            proof {
                assert(out@ =~= v@.subrange(lo as int, hi as int));
            }
        }
        out
    } else {
        let mid = lo + (hi - lo) / 2;
        let left = sort_range(v, lo, mid);
        let right = sort_range(v, mid, hi);
        proof {
            assert(v@.subrange(lo as int, hi as int) =~= v@.subrange(lo as int, mid as int) + v@.subrange(
                mid as int,
                hi as int,
            ));
            vstd::seq_lib::lemma_multiset_commutative(
                v@.subrange(lo as int, mid as int),
                v@.subrange(mid as int, hi as int),
            );
        }
        merge(&left, &right)
    }
}

/// Returns the elements of `v` in non-decreasing order.
pub fn merge_sort<T: SortKey>(v: &Vec<T>) -> (r: Vec<T>)
    ensures
        sorted_by(r@),
        r@.to_multiset() == v@.to_multiset(),
{
    let r = sort_range(v, 0, v.len());
    proof {
        assert(v@.subrange(0, v@.len() as int) =~= v@);
    }
    r
}

} // verus!
