//! Counting observations: how many elements of a multiset lie below, at or
//! under a value, and how those counts are read off a sorted sequence.
use vstd::multiset::Multiset;
use vstd::prelude::*;

verus! {

broadcast use {
    vstd::multiset::group_multiset_axioms,
    vstd::multiset::group_multiset_properties,
    vstd::seq_lib::group_to_multiset_ensures,
};

/// The predicate "strictly below `v`".
pub open spec fn below_pred(v: u128) -> spec_fn(u128) -> bool {
    |x: u128| x < v
}

/// The predicate "at most `v`".
pub open spec fn at_most_pred(v: u128) -> spec_fn(u128) -> bool {
    |x: u128| x <= v
}

/// The predicate "equal to `v`".
pub open spec fn equal_pred(v: u128) -> spec_fn(u128) -> bool {
    |x: u128| x == v
}

/// Number of elements of `m` strictly below `v`.
pub open spec fn count_below(m: Multiset<u128>, v: u128) -> nat {
    m.filter(below_pred(v)).len()
}

/// Number of elements of `m` that are at most `v`.
pub open spec fn count_at_most(m: Multiset<u128>, v: u128) -> nat {
    m.filter(at_most_pred(v)).len()
}

/// Filtering commutes with inserting one element.
proof fn lemma_filter_insert(m: Multiset<u128>, x: u128, p: spec_fn(u128) -> bool)
    ensures
        p(x) ==> m.insert(x).filter(p) =~= m.filter(p).insert(x),
        !p(x) ==> m.insert(x).filter(p) =~= m.filter(p),
{
}

/// If the elements of `s` satisfy `p` exactly on the prefix of length `r`,
/// the multiset of `s` has exactly `r` elements satisfying `p`.
pub proof fn lemma_filter_len_of_split(s: Seq<u128>, p: spec_fn(u128) -> bool, r: int)
    requires
        0 <= r <= s.len(),
        forall|i: int| 0 <= i < r ==> p(#[trigger] s[i]),
        forall|i: int| r <= i < s.len() ==> !p(#[trigger] s[i]),
    ensures
        s.to_multiset().filter(p).len() == r,
    decreases s.len(),
{
    if s.len() == 0 {
        assert(s.to_multiset().filter(p) =~= Multiset::<u128>::empty());
    } else {
        let init = s.drop_last();
        let x = s.last();
        assert(s =~= init.push(x));
        lemma_filter_insert(init.to_multiset(), x, p);
        if r == s.len() {
            lemma_filter_len_of_split(init, p, r - 1);
        } else {
            lemma_filter_len_of_split(init, p, r);
        }
    }
}

/// Counting up to `v` is counting below `v` plus the occurrences of `v`.
pub proof fn lemma_at_most_is_below_plus_count(m: Multiset<u128>, v: u128)
    ensures
        count_at_most(m, v) == count_below(m, v) + m.count(v),
{
    let below = m.filter(below_pred(v));
    let at_most = m.filter(at_most_pred(v));
    let here = m.filter(equal_pred(v));
    assert(at_most =~= below.add(here));
    lemma_count_only(m, v);
}

/// The elements of `m` equal to `v` number `m.count(v)`.
pub proof fn lemma_count_only(m: Multiset<u128>, v: u128)
    ensures
        m.filter(equal_pred(v)).len() == m.count(v),
{
    let here = m.filter(equal_pred(v));
    assert(here =~= Multiset::<u128>::empty().update(v, m.count(v)));
    lemma_update_len(v, m.count(v));
}

/// A multiset holding one value `n` times has `n` elements.
proof fn lemma_update_len(v: u128, n: nat)
    ensures
        Multiset::<u128>::empty().update(v, n).len() == n,
    decreases n,
{
    if n > 0 {
        lemma_update_len(v, (n - 1) as nat);
        assert(Multiset::<u128>::empty().update(v, n) =~= Multiset::<u128>::empty().update(
            v,
            (n - 1) as nat,
        ).insert(v));
    } else {
        assert(Multiset::<u128>::empty().update(v, n) =~= Multiset::<u128>::empty());
    }
}

} // verus!
