//! Searching and de-duplicating sorted key sequences.
use vstd::prelude::*;
use crate::counting::{at_most_pred, below_pred, count_at_most, count_below, lemma_filter_len_of_split};
use crate::order::is_sorted;

verus! {

/// `s` is strictly increasing: sorted with no value repeated.
pub open spec fn is_strictly_increasing(s: Seq<u128>) -> bool {
    forall|i: int, j: int| 0 <= i < j < s.len() ==> s[i] < s[j]
}

/// The insertion point of `v` in a sorted sequence: with `right`, the number
/// of elements at most `v`; without, the number of elements strictly below `v`.
pub open spec fn insertion_point(s: Seq<u128>, v: u128, right: bool) -> nat {
    if right {
        count_at_most(s.to_multiset(), v)
    } else {
        count_below(s.to_multiset(), v)
    }
}

/// Where `v` would be inserted into the sorted `a` to keep it sorted: before
/// the elements equal to `v` (left side) or after them (`right`).
pub fn searchsorted(a: &Vec<u128>, v: u128, right: bool) -> (r: usize)
    requires
        is_sorted(a@),
    ensures
        r <= a.len(),
        forall|i: int| 0 <= i < r ==> if right { a@[i] <= v } else { a@[i] < v },
        forall|i: int| r <= i < a.len() ==> if right { a@[i] > v } else { a@[i] >= v },
        r == insertion_point(a@, v, right),
{
    let mut lo: usize = 0;
    let mut hi: usize = a.len();
    while lo < hi
        invariant
            lo <= hi <= a.len(),
            is_sorted(a@),
            forall|i: int| 0 <= i < lo ==> if right { a@[i] <= v } else { a@[i] < v },
            forall|i: int| hi <= i < a.len() ==> if right { a@[i] > v } else { a@[i] >= v },
        decreases hi - lo,
    {
        let mid = lo + (hi - lo) / 2;
        let go_right = if right {
            a[mid] <= v
        } else {
            a[mid] < v
        };
        if go_right {
            lo = mid + 1;
        } else {
            hi = mid;
        }
    }
    proof {
        if right {
            lemma_filter_len_of_split(a@, at_most_pred(v), lo as int);
        } else {
            lemma_filter_len_of_split(a@, below_pred(v), lo as int);
        }
    }
    lo
}

/// The distinct values of a sorted sequence, in increasing order.
pub fn unique_sorted(z: &Vec<u128>) -> (out: Vec<u128>)
    requires
        is_sorted(z@),
    ensures
        is_strictly_increasing(out@),
        forall|x: u128| out@.contains(x) <==> z@.contains(x),
        out.len() <= z.len(),
{
    let mut out: Vec<u128> = Vec::new();
    let mut i: usize = 0;
    while i < z.len()
        invariant
            i <= z.len(),
            is_sorted(z@),
            is_strictly_increasing(out@),
            out.len() <= i,
            i > 0 ==> out.len() > 0 && out@.last() == z@[i - 1],
            forall|x: u128| out@.contains(x) <==> z@.take(i as int).contains(x),
        decreases z.len() - i,
    {
        let v = z[i];
        let ghost before = out@;
        if out.len() == 0 || out[out.len() - 1] != v {
            out.push(v);
            proof {
                if before.len() > 0 {
                    assert(z@[i - 1] <= v);
                    assert forall|p: int, q: int| 0 <= p < q < out@.len() implies out@[p]
                        < out@[q] by {
                        if q == out@.len() - 1 && p < q - 1 {
                            assert(before[p] < before.last());
                        }
                    }
                }
            }
        }
        proof {
            assert(z@.take(i + 1) =~= z@.take(i as int).push(v));
            assert(out@ == before || out@ == before.push(v));
            assert forall|x: u128| out@.contains(x) <==> z@.take(i + 1).contains(x) by {
                if x == v {
                    assert(out@[out@.len() - 1] == v);
                    assert(z@.take(i + 1)[i as int] == v);
                }
                if out@.contains(x) && x != v {
                    let k = choose|k: int| 0 <= k < out@.len() && out@[k] == x;
                    assert(before[k] == x);
                    assert(before.contains(x));
                    assert(z@.take(i as int).contains(x));
                    let k2 = choose|k2: int| 0 <= k2 < i && z@.take(i as int)[k2] == x;
                    assert(z@.take(i + 1)[k2] == x);
                }
                if z@.take(i + 1).contains(x) && x != v {
                    let next = z@.take(i + 1);
                    let k = choose|k: int| 0 <= k < next.len() && next[k] == x;
                    assert(k < i);
                    assert(z@.take(i as int)[k] == x);
                    assert(before.contains(x));
                    let k2 = choose|k2: int| 0 <= k2 < before.len() && before[k2] == x;
                    assert(out@[k2] == x);
                }
            }
        }
        i += 1;
    }
    proof {
        assert(z@.take(z@.len() as int) =~= z@);
    }
    out
}

} // verus!
