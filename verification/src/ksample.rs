//! The decisions and rank counts of the k-sample test (Scholz & Stephens):
//! which inputs it refuses, the distinct pooled values, and for each of them
//! how many observations lie below it, at it, and at or below it, pooled and
//! per sample.
use vstd::multiset::Multiset;
use vstd::prelude::*;
use vstd::seq_lib::lemma_multiset_commutative;
use crate::counting::{count_at_most, count_below, lemma_at_most_is_below_plus_count};
use crate::error::AdError;
use crate::ieee::{is_nan_bits, key_of, order_key};
use crate::onesample::has_nan;
use crate::order::{is_sorted, merge_sort};
use crate::search::{insertion_point, is_strictly_increasing, searchsorted, unique_sorted};

verus! {

broadcast use vstd::seq_lib::group_to_multiset_ensures;

/// The order keys of one sample's observations.
pub open spec fn sample_keys(s: Seq<u64>) -> Seq<u128> {
    s.map_values(|b: u64| key_of(b) as u128)
}

/// The order keys of all observations, sample after sample.
pub open spec fn pooled_keys(samples: Seq<Vec<u64>>) -> Seq<u128>
    decreases samples.len(),
{
    if samples.len() == 0 {
        Seq::empty()
    } else {
        pooled_keys(samples.drop_last()) + sample_keys(samples.last()@)
    }
}

/// The first refusal found scanning the samples from position `i`: a sample
/// without observations, or a sample holding a NaN.
pub open spec fn sample_refusal_from(samples: Seq<Vec<u64>>, i: int) -> Option<AdError>
    decreases samples.len() - i,
{
    if i < 0 || i >= samples.len() {
        None
    } else if samples[i]@.len() == 0 {
        Some(AdError::EmptySample)
    } else if has_nan(samples[i]@) {
        Some(AdError::ContainsNaN)
    } else {
        sample_refusal_from(samples, i + 1)
    }
}

/// The pooled observations take at least two distinct values.
pub open spec fn has_two_distinct(keys: Seq<u128>) -> bool {
    exists|a: int, b: int| 0 <= a < keys.len() && 0 <= b < keys.len() && keys[a] != keys[b]
}

/// The refusal of the k-sample test, if it refuses: fewer than two samples;
/// else the first sample that is empty or holds a NaN; else pooled
/// observations that are all equal.
pub open spec fn ksample_refusal(samples: Seq<Vec<u64>>) -> Option<AdError> {
    if samples.len() < 2 {
        Some(AdError::TooFewSamples)
    } else if sample_refusal_from(samples, 0) is Some {
        sample_refusal_from(samples, 0)
    } else if !has_two_distinct(pooled_keys(samples)) {
        Some(AdError::TooFewDistinct)
    } else {
        None
    }
}

/// The rank counts of a k-sample input.
pub struct KSampleRanks {
    /// Number of observations in all samples together.
    pub total: usize,
    /// Number of observations of each sample.
    pub sample_sizes: Vec<usize>,
    /// The distinct pooled values (order keys), ascending.
    pub distinct: Vec<u128>,
    /// For each distinct value, the pooled observations strictly below it.
    pub pooled_below: Vec<usize>,
    /// For each distinct value, the pooled observations equal to it.
    pub pooled_ties: Vec<usize>,
    /// For each sample and distinct value, the sample's observations at or below it.
    pub sample_at_most: Vec<Vec<usize>>,
    /// For each sample and distinct value, the sample's observations equal to it.
    pub sample_ties: Vec<Vec<usize>>,
}

/// `r` holds the rank counts of the (accepted) input `samples`.
pub open spec fn ranks_of(samples: Seq<Vec<u64>>, r: KSampleRanks) -> bool {
    let pooled = pooled_keys(samples);
    let z = r.distinct@;
    &&& r.total == pooled.len()
    &&& r.sample_sizes@.len() == samples.len()
    &&& forall|i: int| 0 <= i < samples.len() ==> r.sample_sizes@[i] == samples[i]@.len()
    &&& is_strictly_increasing(z)
    &&& forall|x: u128| z.contains(x) <==> pooled.contains(x)
    &&& r.pooled_below@.len() == z.len()
    &&& r.pooled_ties@.len() == z.len()
    &&& forall|m: int|
        0 <= m < z.len() ==> r.pooled_below@[m] == count_below(pooled.to_multiset(), z[m])
            && r.pooled_ties@[m] == pooled.to_multiset().count(z[m])
    &&& r.sample_at_most@.len() == samples.len()
    &&& r.sample_ties@.len() == samples.len()
    &&& forall|i: int|
        #![trigger r.sample_at_most@[i]]
        #![trigger r.sample_ties@[i]]
        0 <= i < samples.len() ==> {
            &&& r.sample_at_most@[i]@.len() == z.len()
            &&& r.sample_ties@[i]@.len() == z.len()
            &&& forall|m: int|
                0 <= m < z.len() ==> r.sample_at_most@[i]@[m] == count_at_most(
                    sample_keys(samples[i]@).to_multiset(),
                    z[m],
                ) && r.sample_ties@[i]@[m] == sample_keys(samples[i]@).to_multiset().count(z[m])
        }
}

proof fn lemma_pooled_keys_step(samples: Seq<Vec<u64>>, i: int)
    requires
        0 <= i < samples.len(),
    ensures
        pooled_keys(samples.take(i + 1)) == pooled_keys(samples.take(i)) + sample_keys(
            samples[i]@,
        ),
{
    assert(samples.take(i + 1).drop_last() =~= samples.take(i));
}

/// The insertion points of `v` in a sorted sequence: strictly below, and
/// the occurrences of `v`.
fn below_and_ties(a: &Vec<u128>, v: u128) -> (r: (usize, usize))
    requires
        is_sorted(a@),
    ensures
        r.0 == count_below(a@.to_multiset(), v),
        r.1 == a@.to_multiset().count(v),
{
    let left = searchsorted(a, v, false);
    let right = searchsorted(a, v, true);
    proof {
        lemma_at_most_is_below_plus_count(a@.to_multiset(), v);
    }
    (left, right - left)
}

/// Validates a k-sample input (each sample given as the bit patterns of its
/// observations) and counts its ranks.
pub fn ksample_ranks(samples: &Vec<Vec<u64>>) -> (r: Result<KSampleRanks, AdError>)
    ensures
        match ksample_refusal(samples@) {
            Some(e) => r == Err::<KSampleRanks, AdError>(e),
            None => r is Ok && ranks_of(samples@, r->Ok_0),
        },
{
    let k = samples.len();
    if k < 2 {
        return Err(AdError::TooFewSamples);
    }
    let mut pooled: Vec<u128> = Vec::new();
    let mut sorted_samples: Vec<Vec<u128>> = Vec::with_capacity(k);
    let mut sample_sizes: Vec<usize> = Vec::with_capacity(k);
    let mut i: usize = 0;
    while i < k
        invariant
            k == samples.len(),
            2 <= k,
            i <= k,
            pooled@ == pooled_keys(samples@.take(i as int)),
            sorted_samples@.len() == i,
            sample_sizes@.len() == i,
            sample_refusal_from(samples@, 0) == sample_refusal_from(samples@, i as int),
            forall|t: int|
                0 <= t < i ==> is_sorted((#[trigger] sorted_samples@[t])@)
                    && sorted_samples@[t]@.to_multiset() == sample_keys(samples@[t]@).to_multiset(),
            forall|t: int| 0 <= t < i ==> #[trigger] sample_sizes@[t] == samples@[t]@.len(),
        decreases k - i,
    {
        let s = &samples[i];
        if s.len() == 0 {
            return Err(AdError::EmptySample);
        }
        let mut keys: Vec<u128> = Vec::with_capacity(s.len());
        let mut j: usize = 0;
        while j < s.len()
            invariant
                k == samples.len(),
                2 <= k,
                i < k,
                s == samples@[i as int],
                s@.len() > 0,
                sample_refusal_from(samples@, 0) == sample_refusal_from(samples@, i as int),
                j <= s.len(),
                keys@ == sample_keys(s@).take(j as int),
                pooled@ == pooled_keys(samples@.take(i as int)) + sample_keys(s@).take(j as int),
                forall|t: int| 0 <= t < j ==> !is_nan_bits(#[trigger] s@[t]),
            decreases s.len() - j,
        {
            match order_key(s[j]) {
                None => {
                    assert(is_nan_bits(s@[j as int]));
                    assert(has_nan(s@));
                    return Err(AdError::ContainsNaN);
                },
                Some(key) => {
                    keys.push(key as u128);
                    pooled.push(key as u128);
                    proof {
                        assert(sample_keys(s@).take(j + 1) =~= sample_keys(s@).take(j as int).push(
                            key as u128,
                        ));
                    }
                },
            }
            j += 1;
        }
        proof {
            assert(sample_keys(s@).take(s@.len() as int) =~= sample_keys(s@));
            assert(!has_nan(s@));
            lemma_pooled_keys_step(samples@, i as int);
        }
        let sorted = merge_sort(&keys);
        sorted_samples.push(sorted);
        sample_sizes.push(s.len());
        i += 1;
    }
    proof {
        assert(samples@.take(k as int) =~= samples@);
    }
    let total = pooled.len();
    let z = merge_sort(&pooled);
    let distinct = unique_sorted(&z);
    proof {
        assert forall|x: u128| z@.contains(x) <==> pooled@.contains(x) by {
            assert(z@.to_multiset().count(x) == pooled@.to_multiset().count(x));
        }
    }
    if distinct.len() < 2 {
        proof {
            if has_two_distinct(pooled@) {
                let (a, b) = choose|a: int, b: int|
                    0 <= a < pooled@.len() && 0 <= b < pooled@.len() && pooled@[a] != pooled@[b];
                assert(pooled@.contains(pooled@[a]));
                assert(pooled@.contains(pooled@[b]));
                let ia = choose|ia: int| 0 <= ia < distinct@.len() && distinct@[ia] == pooled@[a];
                let ib = choose|ib: int| 0 <= ib < distinct@.len() && distinct@[ib] == pooled@[b];
            }
        }
        return Err(AdError::TooFewDistinct);
    }
    proof {
        assert(distinct@.contains(distinct@[0]));
        assert(distinct@.contains(distinct@[1]));
        let a = choose|a: int| 0 <= a < pooled@.len() && pooled@[a] == distinct@[0];
        let b = choose|b: int| 0 <= b < pooled@.len() && pooled@[b] == distinct@[1];
        assert(has_two_distinct(pooled@));
    }
    let l = distinct.len();
    let mut pooled_below: Vec<usize> = Vec::with_capacity(l);
    let mut pooled_ties: Vec<usize> = Vec::with_capacity(l);
    let mut m: usize = 0;
    while m < l
        invariant
            l == distinct@.len(),
            m <= l,
            is_sorted(z@),
            z@.to_multiset() == pooled@.to_multiset(),
            pooled_below@.len() == m,
            pooled_ties@.len() == m,
            forall|t: int|
                0 <= t < m ==> #[trigger] pooled_below@[t] == count_below(
                    pooled@.to_multiset(),
                    distinct@[t],
                ) && pooled_ties@[t] == pooled@.to_multiset().count(distinct@[t]),
        decreases l - m,
    {
        let (below, ties) = below_and_ties(&z, distinct[m]);
        pooled_below.push(below);
        pooled_ties.push(ties);
        m += 1;
    }
    let mut sample_at_most: Vec<Vec<usize>> = Vec::with_capacity(k);
    let mut sample_ties: Vec<Vec<usize>> = Vec::with_capacity(k);
    let mut i: usize = 0;
    while i < k
        invariant
            k == samples.len(),
            k == sorted_samples@.len(),
            l == distinct@.len(),
            i <= k,
            forall|t: int|
                0 <= t < k ==> is_sorted((#[trigger] sorted_samples@[t])@)
                    && sorted_samples@[t]@.to_multiset() == sample_keys(samples@[t]@).to_multiset(),
            sample_at_most@.len() == i,
            sample_ties@.len() == i,
            forall|t: int|
                #![trigger sample_at_most@[t]]
                #![trigger sample_ties@[t]]
                0 <= t < i ==> {
                    &&& sample_at_most@[t]@.len() == l
                    &&& sample_ties@[t]@.len() == l
                    &&& forall|u: int|
                        0 <= u < l ==> sample_at_most@[t]@[u] == count_at_most(
                            sample_keys(samples@[t]@).to_multiset(),
                            distinct@[u],
                        ) && sample_ties@[t]@[u] == sample_keys(
                            samples@[t]@,
                        ).to_multiset().count(distinct@[u])
                },
        decreases k - i,
    {
        let s = &sorted_samples[i];
        let mut at_most_row: Vec<usize> = Vec::with_capacity(l);
        let mut ties_row: Vec<usize> = Vec::with_capacity(l);
        let mut m: usize = 0;
        while m < l
            invariant
                l == distinct@.len(),
                m <= l,
                is_sorted(s@),
                at_most_row@.len() == m,
                ties_row@.len() == m,
                forall|u: int|
                    0 <= u < m ==> #[trigger] at_most_row@[u] == count_at_most(
                        s@.to_multiset(),
                        distinct@[u],
                    ) && ties_row@[u] == s@.to_multiset().count(distinct@[u]),
            decreases l - m,
        {
            let (below, ties) = below_and_ties(s, distinct[m]);
            let at_most = searchsorted(s, distinct[m], true);
            at_most_row.push(at_most);
            ties_row.push(ties);
            m += 1;
        }
        proof {
            assert(s@.to_multiset() == sample_keys(samples@[i as int]@).to_multiset());
        }
        let ghost prev_at_most = sample_at_most@;
        let ghost prev_ties = sample_ties@;
        sample_at_most.push(at_most_row);
        sample_ties.push(ties_row);
        proof {
            assert forall|t: int|
                #![trigger sample_at_most@[t]]
                #![trigger sample_ties@[t]]
                0 <= t < i + 1 implies {
                &&& sample_at_most@[t]@.len() == l
                &&& sample_ties@[t]@.len() == l
                &&& forall|u: int|
                    0 <= u < l ==> sample_at_most@[t]@[u] == count_at_most(
                        sample_keys(samples@[t]@).to_multiset(),
                        distinct@[u],
                    ) && sample_ties@[t]@[u] == sample_keys(samples@[t]@).to_multiset().count(
                        distinct@[u],
                    )
            } by {
                if t < i {
                    assert(sample_at_most@[t] == prev_at_most[t]);
                    assert(sample_ties@[t] == prev_ties[t]);
                }
            }
        }
        i += 1;
    }
    proof {
        assert(pooled@ == pooled_keys(samples@));
        assert(forall|x: u128| distinct@.contains(x) <==> pooled@.contains(x));
    }
    Ok(
        KSampleRanks {
            total,
            sample_sizes,
            distinct,
            pooled_below,
            pooled_ties,
            sample_at_most,
            sample_ties,
        },
    )
}

/// Sum of a sequence of counts.
pub open spec fn sum_counts(s: Seq<usize>) -> int
    decreases s.len(),
{
    if s.len() == 0 {
        0
    } else {
        sum_counts(s.drop_last()) + s.last()
    }
}

/// The ties of sample after sample at the distinct value of index `m`.
pub open spec fn ties_column(ties: Seq<Vec<usize>>, m: int) -> Seq<usize> {
    ties.map_values(|row: Vec<usize>| row@[m])
}

/// Every value of `pooled` occurs among the distinct values `z`, which are
/// strictly increasing: nothing of `pooled` lies strictly between two
/// consecutive distinct values.
proof fn lemma_nothing_between(pooled: Seq<u128>, z: Seq<u128>, m: int, x: u128)
    requires
        is_strictly_increasing(z),
        forall|y: u128| z.contains(y) <==> pooled.contains(y),
        0 <= m < z.len() - 1,
        z[m] < x < z[m + 1],
    ensures
        pooled.to_multiset().count(x) == 0,
{
    if pooled.to_multiset().count(x) > 0 {
        assert(pooled.contains(x));
        assert(z.contains(x));
        let j = choose|j: int| 0 <= j < z.len() && z[j] == x;
        if j <= m {
            assert(z[j] <= z[m]);
        } else {
            assert(z[m + 1] <= z[j]);
        }
    }
}

/// Law: ranks accumulate. Nothing of the pooled sample lies below the
/// smallest distinct value, and the pooled observations below the next
/// distinct value are those below this one plus the ties at this one.
pub proof fn lemma_pooled_ranks_accumulate(samples: Seq<Vec<u64>>, r: KSampleRanks, m: int)
    requires
        ranks_of(samples, r),
        0 <= m < r.distinct@.len() - 1,
    ensures
        r.pooled_below@[0] == 0,
        r.pooled_below@[m + 1] == r.pooled_below@[m] + r.pooled_ties@[m],
{
    let pooled = pooled_keys(samples);
    let pm = pooled.to_multiset();
    let z = r.distinct@;
    lemma_nothing_below_smallest(samples, r);
    let lower = pm.filter(crate::counting::below_pred(z[m]));
    let upper = pm.filter(crate::counting::below_pred(z[m + 1]));
    let here = pm.filter(crate::counting::equal_pred(z[m]));
    assert(upper =~= lower.add(here)) by {
        assert forall|x: u128| upper.count(x) == lower.add(here).count(x) by {
            if z[m] < x < z[m + 1] {
                lemma_nothing_between(pooled, z, m, x);
            }
        }
    }
    crate::counting::lemma_count_only(pm, z[m]);
}

/// Law: every pooled observation is counted once among the ties: the ties
/// at the distinct values add up to the number of observations.
pub proof fn lemma_ties_cover_all_observations(samples: Seq<Vec<u64>>, r: KSampleRanks)
    requires
        ranks_of(samples, r),
        r.distinct@.len() > 0,
    ensures
        sum_counts(r.pooled_ties@) == r.total,
{
    let pooled = pooled_keys(samples);
    let pm = pooled.to_multiset();
    let z = r.distinct@;
    let l = z.len() as int;
    lemma_below_is_sum_of_ties(samples, r, l - 1);
    assert(r.pooled_ties@.take(l - 1).push(r.pooled_ties@[l - 1]) =~= r.pooled_ties@);
    // Everything pooled is at most the largest distinct value.
    assert(pm.filter(crate::counting::at_most_pred(z[l - 1])) =~= pm) by {
        assert forall|x: u128| pm.filter(crate::counting::at_most_pred(z[l - 1])).count(x)
            == pm.count(x) by {
            if pm.count(x) > 0 {
                assert(pooled.contains(x));
                let j = choose|j: int| 0 <= j < z.len() && z[j] == x;
                assert(z[j] <= z[l - 1]);
            }
        }
    }
    lemma_at_most_is_below_plus_count(pm, z[l - 1]);
}

/// The pooled observations below the distinct value of index `m` are the
/// ties at all smaller distinct values.
proof fn lemma_below_is_sum_of_ties(samples: Seq<Vec<u64>>, r: KSampleRanks, m: int)
    requires
        ranks_of(samples, r),
        0 <= m < r.distinct@.len(),
    ensures
        r.pooled_below@[m] == sum_counts(r.pooled_ties@.take(m)),
    decreases m,
{
    if m == 0 {
        assert(r.pooled_ties@.take(0) =~= Seq::<usize>::empty());
        if r.distinct@.len() > 1 {
            lemma_pooled_ranks_accumulate(samples, r, 0);
        } else {
            lemma_nothing_below_smallest(samples, r);
        }
    } else {
        lemma_below_is_sum_of_ties(samples, r, m - 1);
        lemma_pooled_ranks_accumulate(samples, r, m - 1);
        assert(r.pooled_ties@.take(m).drop_last() =~= r.pooled_ties@.take(m - 1));
    }
}

proof fn lemma_nothing_below_smallest(samples: Seq<Vec<u64>>, r: KSampleRanks)
    requires
        ranks_of(samples, r),
        r.distinct@.len() > 0,
    ensures
        r.pooled_below@[0] == 0,
{
    let pooled = pooled_keys(samples);
    let pm = pooled.to_multiset();
    let z = r.distinct@;
    assert(pm.filter(crate::counting::below_pred(z[0])) =~= Multiset::empty()) by {
        assert forall|x: u128| pm.filter(crate::counting::below_pred(z[0])).count(x) == 0 by {
            if x < z[0] && pm.count(x) > 0 {
                assert(pooled.contains(x));
                let j = choose|j: int| 0 <= j < z.len() && z[j] == x;
                assert(z[0] <= z[j]);
            }
        }
    }
}

/// Every observation of sample `i` is among the pooled observations.
proof fn lemma_sample_in_pooled(samples: Seq<Vec<u64>>, i: int, a: int)
    requires
        0 <= i < samples.len(),
        0 <= a < samples[i]@.len(),
    ensures
        pooled_keys(samples).contains(sample_keys(samples[i]@)[a]),
    decreases samples.len(),
{
    let init = samples.drop_last();
    let front = pooled_keys(init);
    let back = sample_keys(samples.last()@);
    if i == samples.len() - 1 {
        assert((front + back)[front.len() + a] == back[a]);
    } else {
        lemma_sample_in_pooled(init, i, a);
        let p = choose|p: int| 0 <= p < front.len() && front[p] == sample_keys(samples[i]@)[a];
        assert((front + back)[p] == front[p]);
    }
}

/// Law: every observation of a sample is at most the largest distinct
/// value, so the last column of a sample's cumulative counts is its size.
pub proof fn lemma_sample_counts_end_at_size(samples: Seq<Vec<u64>>, r: KSampleRanks, i: int)
    requires
        ranks_of(samples, r),
        0 <= i < samples.len(),
        r.distinct@.len() > 0,
    ensures
        r.sample_at_most@[i]@[r.distinct@.len() - 1] == r.sample_sizes@[i],
{
    let z = r.distinct@;
    let top = z[z.len() - 1];
    let keys = sample_keys(samples[i]@);
    let sm = keys.to_multiset();
    assert(sm.filter(crate::counting::at_most_pred(top)) =~= sm) by {
        assert forall|x: u128| sm.filter(crate::counting::at_most_pred(top)).count(x) == sm.count(
            x,
        ) by {
            if sm.count(x) > 0 {
                assert(keys.contains(x));
                let a = choose|a: int| 0 <= a < keys.len() && keys[a] == x;
                lemma_sample_in_pooled(samples, i, a);
                let j = choose|j: int| 0 <= j < z.len() && z[j] == x;
                assert(z[j] <= top);
            }
        }
    }
}

/// The occurrences of `v` in each sample, added over the samples.
pub open spec fn sum_of_sample_counts(samples: Seq<Vec<u64>>, v: u128) -> int
    decreases samples.len(),
{
    if samples.len() == 0 {
        0
    } else {
        sum_of_sample_counts(samples.drop_last(), v) + sample_keys(
            samples.last()@,
        ).to_multiset().count(v)
    }
}

/// The pooled occurrences of a value are its occurrences per sample, added up.
pub proof fn lemma_pooled_count_is_sum(samples: Seq<Vec<u64>>, v: u128)
    ensures
        pooled_keys(samples).to_multiset().count(v) == sum_of_sample_counts(samples, v),
    decreases samples.len(),
{
    if samples.len() > 0 {
        lemma_pooled_count_is_sum(samples.drop_last(), v);
        lemma_multiset_commutative(
            pooled_keys(samples.drop_last()),
            sample_keys(samples.last()@),
        );
    }
}

proof fn lemma_ties_column_prefix(samples: Seq<Vec<u64>>, r: KSampleRanks, m: int, j: int)
    requires
        ranks_of(samples, r),
        0 <= m < r.distinct@.len(),
        0 <= j <= samples.len(),
    ensures
        sum_counts(ties_column(r.sample_ties@.take(j), m)) == sum_of_sample_counts(
            samples.take(j),
            r.distinct@[m],
        ),
    decreases j,
{
    if j == 0 {
        assert(ties_column(r.sample_ties@.take(0), m) =~= Seq::<usize>::empty());
        assert(samples.take(0) =~= Seq::<Vec<u64>>::empty());
    } else {
        lemma_ties_column_prefix(samples, r, m, j - 1);
        assert(ties_column(r.sample_ties@.take(j), m).drop_last() =~= ties_column(
            r.sample_ties@.take(j - 1),
            m,
        ));
        assert(samples.take(j).drop_last() =~= samples.take(j - 1));
        assert(r.sample_ties@.take(j)[j - 1] == r.sample_ties@[j - 1]);
    }
}

/// Law: the ties at a distinct value are shared out among the samples: the
/// per-sample ties add up to the pooled ties.
pub proof fn lemma_sample_ties_add_to_pooled_ties(
    samples: Seq<Vec<u64>>,
    r: KSampleRanks,
    m: int,
)
    requires
        ranks_of(samples, r),
        0 <= m < r.distinct@.len(),
    ensures
        sum_counts(ties_column(r.sample_ties@, m)) == r.pooled_ties@[m],
{
    lemma_ties_column_prefix(samples, r, m, samples.len() as int);
    assert(r.sample_ties@.take(samples.len() as int) =~= r.sample_ties@);
    assert(samples.take(samples.len() as int) =~= samples);
    lemma_pooled_count_is_sum(samples, r.distinct@[m]);
}

/// The significance levels of the k-sample critical values, in
/// thousandths, most lenient first (0.25 is 250).
pub open spec fn ksample_significance() -> Seq<u32> {
    seq![250, 100, 50, 25, 10, 5, 1]
}

/// The coefficients `(b0, b1, b2)` of the k-sample critical values
/// `b0 + b1 / sqrt(m) + b2 / m` (m one less than the number of samples), in
/// thousandths, one triple per significance level.
pub open spec fn ksample_critical_coefficients() -> Seq<(i32, i32, i32)> {
    seq![
        (675i32, -245i32, -105i32),
        (1281i32, 250i32, -305i32),
        (1645i32, 678i32, -362i32),
        (1960i32, 1149i32, -391i32),
        (2326i32, 1822i32, -396i32),
        (2573i32, 2364i32, -345i32),
        (3085i32, 3615i32, -154i32),
    ]
}

/// The k-sample significance levels in thousandths.
pub fn ksample_significance_thousandths() -> (levels: Vec<u32>)
    ensures
        levels@ == ksample_significance(),
{
    let levels = vec![250, 100, 50, 25, 10, 5, 1];
    proof {
        assert(levels@ =~= ksample_significance());
    }
    levels
}

/// The k-sample critical-value coefficients in thousandths.
pub fn ksample_critical_coefficients_thousandths() -> (coefficients: Vec<(i32, i32, i32)>)
    ensures
        coefficients@ == ksample_critical_coefficients(),
{
    let coefficients = vec![
        (675, -245, -105),
        (1281, 250, -305),
        (1645, 678, -362),
        (1960, 1149, -391),
        (2326, 1822, -396),
        (2573, 2364, -345),
        (3085, 3615, -154),
    ];
    proof {
        assert(coefficients@ =~= ksample_critical_coefficients());
    }
    coefficients
}

/// Law: each k-sample significance level has its coefficient triple, the
/// levels tighten from first to last, and the leading coefficient grows
/// with them.
pub proof fn lemma_ksample_tables_agree()
    ensures
        ksample_significance().len() == ksample_critical_coefficients().len(),
        forall|i: int, j: int|
            0 <= i < j < ksample_significance().len() ==> ksample_significance()[i]
                > ksample_significance()[j] && ksample_critical_coefficients()[i].0
                < ksample_critical_coefficients()[j].0,
{
}

/// Pooled observations of samples with the same observations, each up to
/// order, are the same up to order.
proof fn lemma_pooled_multiset_up_to_order(a: Seq<Vec<u64>>, b: Seq<Vec<u64>>)
    requires
        a.len() == b.len(),
        forall|i: int|
            0 <= i < a.len() ==> sample_keys(a[i]@).to_multiset() == sample_keys(
                b[i]@,
            ).to_multiset(),
    ensures
        pooled_keys(a).to_multiset() == pooled_keys(b).to_multiset(),
    decreases a.len(),
{
    if a.len() > 0 {
        lemma_pooled_multiset_up_to_order(a.drop_last(), b.drop_last());
        lemma_multiset_commutative(pooled_keys(a.drop_last()), sample_keys(a.last()@));
        lemma_multiset_commutative(pooled_keys(b.drop_last()), sample_keys(b.last()@));
    }
}

/// Law: the rank counts depend on each sample only through its observations,
/// not through their order: inputs whose samples agree up to the order of
/// their observations have the same rank counts.
pub proof fn lemma_ranks_ignore_order_within_samples(
    a: Seq<Vec<u64>>,
    b: Seq<Vec<u64>>,
    r: KSampleRanks,
)
    requires
        a.len() == b.len(),
        forall|i: int|
            0 <= i < a.len() ==> sample_keys(a[i]@).to_multiset() == sample_keys(
                b[i]@,
            ).to_multiset(),
    ensures
        ranks_of(a, r) == ranks_of(b, r),
{
    lemma_pooled_multiset_up_to_order(a, b);
    let pa = pooled_keys(a);
    let pb = pooled_keys(b);
    assert(pa.len() == pa.to_multiset().len());
    assert(pb.len() == pb.to_multiset().len());
    assert forall|x: u128| pa.contains(x) <==> pb.contains(x) by {
        assert(pa.to_multiset().count(x) == pb.to_multiset().count(x));
    }
    assert forall|i: int| 0 <= i < a.len() implies a[i]@.len() == b[i]@.len() by {
        assert(sample_keys(a[i]@).len() == sample_keys(a[i]@).to_multiset().len());
        assert(sample_keys(b[i]@).len() == sample_keys(b[i]@).to_multiset().len());
    }
}

/// The critical value of tier `i` at `x = p/q`, scaled by `q²` (and by
/// 1000): `b0·q² + b1·p·q + b2·p²`, which is `q²·(b0 + b1·x + b2·x²)`. With
/// `x = 1/sqrt(m)` this is the tier's critical value for `m + 1` samples.
pub open spec fn scaled_critical(i: int, p: int, q: int) -> int {
    let c = ksample_critical_coefficients()[i];
    c.0 * q * q + c.1 * p * q + c.2 * p * p
}

proof fn lemma_quadratic_positive(d0: int, d1: int, d2: int, p: int, q: int)
    requires
        0 < p <= q,
        d0 > 0,
        d1 >= 0,
        d1 + d2 >= 0,
    ensures
        d0 * q * q + d1 * p * q + d2 * p * p > 0,
{
    assert(d0 * q * q + d1 * p * q + d2 * p * p > 0) by (nonlinear_arith)
        requires
            0 < p <= q,
            d0 > 0,
            d1 >= 0,
            d1 + d2 >= 0,
    {
        assert(p * p <= p * q);
        assert(p * q <= q * q);
        assert(q * q > 0);
        if d2 < 0 {
            assert(d2 * p * p >= d2 * p * q);
        } else {
            assert(d2 * p * p >= 0);
        }
        assert(d1 * p * q + d2 * p * q >= 0);
        assert(d0 * q * q > 0);
    }
}

proof fn lemma_difference_of_quadratics(
    a0: int,
    a1: int,
    a2: int,
    b0: int,
    b1: int,
    b2: int,
    p: int,
    q: int,
)
    by (nonlinear_arith)
    ensures
        (b0 * q * q + b1 * p * q + b2 * p * p) - (a0 * q * q + a1 * p * q + a2 * p * p) == (b0
            - a0) * q * q + (b1 - a1) * p * q + (b2 - a2) * p * p,
{
}

/// Law: for any number of samples (any `x = 1/sqrt(m)` in `(0, 1]`, here
/// every rational `p/q` with `0 < p <= q`), the k-sample critical values grow
/// strictly from each significance level to the next tighter one.
pub proof fn lemma_ksample_critical_values_increase(i: int, j: int, p: int, q: int)
    requires
        0 <= i < j < ksample_critical_coefficients().len(),
        0 < p <= q,
    ensures
        scaled_critical(i, p, q) < scaled_critical(j, p, q),
    decreases j - i,
{
    let c = ksample_critical_coefficients();
    if j > i + 1 {
        lemma_ksample_critical_values_increase(i, j - 1, p, q);
        lemma_ksample_critical_values_increase(j - 1, j, p, q);
    } else {
        let d0 = c[j].0 - c[i].0;
        let d1 = c[j].1 - c[i].1;
        let d2 = c[j].2 - c[i].2;
        assert(d0 > 0 && d1 >= 0 && d1 + d2 >= 0);
        lemma_quadratic_positive(d0, d1, d2, p, q);
        lemma_difference_of_quadratics(c[i].0 as int, c[i].1 as int, c[i].2 as int, c[j].0 as int, c[j].1 as int, c[j].2 as int, p, q);
    }
}

/// Law: the k-sample significance levels are 25%, 10%, 5%, 2.5%, 1%, 0.5%
/// and 0.1%, so the p-value is capped at 0.25 and floored at 0.001.
pub proof fn lemma_ksample_significance_levels()
    ensures
        ksample_significance().len() == 7,
        ksample_significance()[0] == 250,
        ksample_significance()[6] == 1,
        ksample_significance() == seq![250u32, 100, 50, 25, 10, 5, 1],
{
    assert(ksample_significance() =~= seq![250u32, 100, 50, 25, 10, 5, 1]);
}

/// Law: the tabulated coefficients are those of Scholz and Stephens,
/// thousandths of b0 = 0.675, 1.281, 1.645, 1.96, 2.326, 2.573, 3.085;
/// b1 = -0.245, 0.25, 0.678, 1.149, 1.822, 2.364, 3.615; b2 = -0.105,
/// -0.305, -0.362, -0.391, -0.396, -0.345, -0.154.
pub proof fn lemma_ksample_coefficients_published()
    ensures
        ksample_critical_coefficients().map_values(|c: (i32, i32, i32)| c.0) == seq![
            675i32,
            1281,
            1645,
            1960,
            2326,
            2573,
            3085,
        ],
        ksample_critical_coefficients().map_values(|c: (i32, i32, i32)| c.1) == seq![
            -245i32,
            250,
            678,
            1149,
            1822,
            2364,
            3615,
        ],
        ksample_critical_coefficients().map_values(|c: (i32, i32, i32)| c.2) == seq![
            -105i32,
            -305i32,
            -362i32,
            -391i32,
            -396i32,
            -345i32,
            -154i32,
        ],
{
    assert(ksample_critical_coefficients().map_values(|c: (i32, i32, i32)| c.0) =~= seq![
        675i32,
        1281,
        1645,
        1960,
        2326,
        2573,
        3085,
    ]);
    assert(ksample_critical_coefficients().map_values(|c: (i32, i32, i32)| c.1) =~= seq![
        -245i32,
        250,
        678,
        1149,
        1822,
        2364,
        3615,
    ]);
    assert(ksample_critical_coefficients().map_values(|c: (i32, i32, i32)| c.2) =~= seq![
        -105i32,
        -305i32,
        -362i32,
        -391i32,
        -396i32,
        -345i32,
        -154i32,
    ]);
}

/// Scanning from `i` finds a refusal exactly when some later sample is empty
/// or holds a NaN, and it is the reason of the first such sample.
proof fn lemma_scan_finds_first_bad(samples: Seq<Vec<u64>>, i: int)
    requires
        0 <= i <= samples.len(),
    ensures
        sample_refusal_from(samples, i) is None <==> forall|t: int|
            i <= t < samples.len() ==> (#[trigger] samples[t])@.len() > 0 && !has_nan(
                samples[t]@,
            ),
        sample_refusal_from(samples, i) is Some ==> exists|t: int|
            i <= t < samples.len() && (forall|u: int|
                i <= u < t ==> (#[trigger] samples[u])@.len() > 0 && !has_nan(samples[u]@)) && (
            sample_refusal_from(samples, i) == if samples[t]@.len() == 0 {
                Some(AdError::EmptySample)
            } else {
                Some(AdError::ContainsNaN)
            }) && (samples[t]@.len() == 0 || has_nan(samples[t]@)),
    decreases samples.len() - i,
{
    if i < samples.len() {
        lemma_scan_finds_first_bad(samples, i + 1);
        if samples[i]@.len() == 0 || has_nan(samples[i]@) {
            assert(forall|u: int| i <= u < i ==> (#[trigger] samples[u])@.len() > 0);
        } else if sample_refusal_from(samples, i + 1) is Some {
            let t = choose|t: int|
                i + 1 <= t < samples.len() && (forall|u: int|
                    i + 1 <= u < t ==> (#[trigger] samples[u])@.len() > 0 && !has_nan(
                        samples[u]@,
                    )) && (sample_refusal_from(samples, i + 1) == if samples[t]@.len() == 0 {
                    Some(AdError::EmptySample)
                } else {
                    Some(AdError::ContainsNaN)
                }) && (samples[t]@.len() == 0 || has_nan(samples[t]@));
            assert(forall|u: int|
                i <= u < t ==> (#[trigger] samples[u])@.len() > 0 && !has_nan(samples[u]@));
        }
    }
}

/// Law: the k-sample test refuses fewer than two samples first; otherwise
/// it refuses because of the first sample that is empty (no observation) or
/// holds a NaN, with that reason; otherwise it refuses pooled observations
/// that are all equal; and it accepts every other input.
pub proof fn lemma_ksample_refusal_reasons(samples: Seq<Vec<u64>>)
    ensures
        ksample_refusal(samples) == Some(AdError::TooFewSamples) <==> samples.len() < 2,
        samples.len() >= 2 ==> (ksample_refusal(samples) == Some(AdError::EmptySample) <==> exists|
            t: int,
        |
            0 <= t < samples.len() && samples[t]@.len() == 0 && forall|u: int|
                0 <= u < t ==> (#[trigger] samples[u])@.len() > 0 && !has_nan(samples[u]@)),
        samples.len() >= 2 ==> (ksample_refusal(samples) == Some(AdError::ContainsNaN) <==> exists|
            t: int,
        |
            0 <= t < samples.len() && samples[t]@.len() > 0 && has_nan(samples[t]@) && forall|
                u: int,
            | 0 <= u < t ==> (#[trigger] samples[u])@.len() > 0 && !has_nan(samples[u]@)),
        ksample_refusal(samples) is None <==> samples.len() >= 2 && (forall|t: int|
            0 <= t < samples.len() ==> (#[trigger] samples[t])@.len() > 0 && !has_nan(
                samples[t]@,
            )) && has_two_distinct(pooled_keys(samples)),
{
    if samples.len() >= 2 {
        lemma_scan_finds_first_bad(samples, 0);
        if sample_refusal_from(samples, 0) is Some {
            let t = choose|t: int|
                0 <= t < samples.len() && (forall|u: int|
                    0 <= u < t ==> (#[trigger] samples[u])@.len() > 0 && !has_nan(samples[u]@)) && (
                sample_refusal_from(samples, 0) == if samples[t]@.len() == 0 {
                    Some(AdError::EmptySample)
                } else {
                    Some(AdError::ContainsNaN)
                }) && (samples[t]@.len() == 0 || has_nan(samples[t]@));
            assert forall|t2: int|
                0 <= t2 < samples.len() && (samples[t2]@.len() == 0 || has_nan(samples[t2]@))
                    && (forall|u: int|
                    0 <= u < t2 ==> (#[trigger] samples[u])@.len() > 0 && !has_nan(
                        samples[u]@,
                    )) implies t2 == t by {
                if t2 < t {
                    assert(samples[t2]@.len() > 0 && !has_nan(samples[t2]@));
                }
                if t < t2 {
                    assert(samples[t]@.len() > 0 && !has_nan(samples[t]@));
                }
            }
        }
    }
}

} // verus!
