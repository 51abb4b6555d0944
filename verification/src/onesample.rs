//! The decisions of the one-sample test: which inputs it refuses, the order
//! of the observations, and whether the sample is constant.
use vstd::prelude::*;
use crate::error::AdError;
use crate::ieee::{is_nan_bits, key_of, order_key, value_eq};
use crate::order::{is_sorted, merge_sort};

verus! {

broadcast use vstd::seq_lib::group_to_multiset_ensures;

/// 2^64, the factor that packs a key above a position.
const POSITION_RADIX: u128 = 0x1_0000_0000_0000_0000;

/// Some observation of `data` is a NaN.
pub open spec fn has_nan(data: Seq<u64>) -> bool {
    exists|i: int| 0 <= i < data.len() && is_nan_bits(#[trigger] data[i])
}

/// `perm` lists each position of a sequence of length `n` exactly once.
pub open spec fn is_permutation_of_positions(perm: Seq<usize>, n: nat) -> bool {
    &&& perm.len() == n
    &&& forall|i: int| 0 <= i < n ==> #[trigger] perm[i] < n
    &&& forall|i: int, j: int| 0 <= i < j < n ==> perm[i] != perm[j]
}

/// `perm` visits the observations in ascending numeric order, and equal
/// observations in the order in which they were given.
pub open spec fn is_stable_sorting_order(data: Seq<u64>, perm: Seq<usize>) -> bool {
    &&& is_permutation_of_positions(perm, data.len())
    &&& forall|i: int, j: int|
        0 <= i < j < perm.len() ==> key_of(data[perm[i] as int]) <= key_of(data[perm[j] as int])
    &&& forall|i: int, j: int|
        0 <= i < j < perm.len() && key_of(data[perm[i] as int]) == key_of(data[perm[j] as int])
            ==> perm[i] < perm[j]
}

/// The refusal of the one-sample test on `data`, if it refuses: fewer than
/// two observations first, then a NaN anywhere.
pub open spec fn one_sample_refusal(data: Seq<u64>) -> Option<AdError> {
    if data.len() < 2 {
        Some(AdError::TooFewObservations)
    } else if has_nan(data) {
        Some(AdError::ContainsNaN)
    } else {
        None
    }
}

spec fn packed(k: u64, i: int) -> int {
    k * POSITION_RADIX + i
}

proof fn lemma_unpack(k: u64, i: int)
    requires
        0 <= i < POSITION_RADIX,
    ensures
        packed(k, i) % (POSITION_RADIX as int) == i,
        packed(k, i) / (POSITION_RADIX as int) == k,
{
    assert((k * POSITION_RADIX + i) % (POSITION_RADIX as int) == i) by (nonlinear_arith)
        requires
            0 <= i < POSITION_RADIX,
    ;
    assert((k * POSITION_RADIX + i) / (POSITION_RADIX as int) == k) by (nonlinear_arith)
        requires
            0 <= i < POSITION_RADIX,
    ;
}

/// Validates a one-sample input and returns the positions of its
/// observations in ascending order (a stable sort of the values).
pub fn one_sample_order(data: &Vec<u64>) -> (r: Result<Vec<usize>, AdError>)
    ensures
        match one_sample_refusal(data@) {
            Some(e) => r == Err::<Vec<usize>, AdError>(e),
            None => r is Ok && is_stable_sorting_order(data@, r->Ok_0@),
        },
{
    let n = data.len();
    if n < 2 {
        return Err(AdError::TooFewObservations);
    }
    let mut packed_keys: Vec<u128> = Vec::with_capacity(n);
    let mut i: usize = 0;
    while i < n
        invariant
            n == data.len(),
            2 <= n,
            i <= n,
            packed_keys@.len() == i,
            forall|j: int| 0 <= j < i ==> !is_nan_bits(#[trigger] data@[j]),
            forall|j: int|
                0 <= j < i ==> #[trigger] packed_keys@[j] == packed(key_of(data@[j]), j),
        decreases n - i,
    {
        match order_key(data[i]) {
            None => {
                assert(is_nan_bits(data@[i as int]));
                assert(has_nan(data@));
                return Err(AdError::ContainsNaN);
            },
            Some(k) => {
                packed_keys.push((k as u128) * POSITION_RADIX + (i as u128));
            },
        }
        i += 1;
    }
    let sorted = merge_sort(&packed_keys);
    let mut perm: Vec<usize> = Vec::with_capacity(n);
    let mut j: usize = 0;
    proof {
        assert forall|a: int, b: int| 0 <= a < b < n implies packed_keys@[a] != packed_keys@[b] by {
            lemma_unpack(key_of(data@[a]), a);
            lemma_unpack(key_of(data@[b]), b);
        }
        packed_keys@.lemma_multiset_has_no_duplicates();
        assert forall|x: u128| sorted@.to_multiset().contains(x) implies sorted@.to_multiset().count(
            x,
        ) == 1 by {
            assert(packed_keys@.to_multiset().contains(x));
        }
        sorted@.lemma_multiset_has_no_duplicates_conv();
        assert(sorted@.len() == sorted@.to_multiset().len());
        assert(packed_keys@.len() == packed_keys@.to_multiset().len());
    }
    while j < n
        invariant
            n == data.len(),
            n == sorted@.len(),
            n == packed_keys@.len(),
            j <= n,
            perm@.len() == j,
            is_sorted(sorted@),
            sorted@.no_duplicates(),
            sorted@.to_multiset() == packed_keys@.to_multiset(),
            forall|a: int|
                0 <= a < n ==> #[trigger] packed_keys@[a] == packed(key_of(data@[a]), a),
            forall|t: int|
                0 <= t < j ==> #[trigger] perm@[t] < n && sorted@[t] == packed(
                    key_of(data@[perm@[t] as int]),
                    perm@[t] as int,
                ),
        decreases n - j,
    {
        let x = sorted[j];
        proof {
            assert(sorted@.contains(x));
            assert(packed_keys@.to_multiset().contains(x));
            let a = choose|a: int| 0 <= a < n && packed_keys@[a] == x;
            lemma_unpack(key_of(data@[a]), a);
        }
        perm.push((x % POSITION_RADIX) as usize);
        j += 1;
    }
    proof {
        assert forall|s: int, t: int| 0 <= s < t < n implies perm@[s] != perm@[t] by {
            if perm@[s] == perm@[t] {
                assert(sorted@[s] == sorted@[t]);
            }
        }
        assert forall|s: int, t: int| 0 <= s < t < n implies key_of(data@[perm@[s] as int])
            <= key_of(data@[perm@[t] as int]) && (key_of(data@[perm@[s] as int]) == key_of(
            data@[perm@[t] as int],
        ) ==> perm@[s] < perm@[t]) by {
            assert(sorted@[s] <= sorted@[t]);
            assert(sorted@[s] != sorted@[t]);
        }
    }
    Ok(perm)
}

/// All observations are equal as floating-point numbers to the first one
/// (`true` for an empty input; `false` whenever a NaN takes part).
pub open spec fn is_constant_spec(data: Seq<u64>) -> bool {
    forall|i: int| 0 <= i < data.len() ==> value_eq(#[trigger] data[i], data[0])
}

/// Whether every observation equals the first one.
pub fn is_constant(data: &Vec<u64>) -> (c: bool)
    ensures
        c == is_constant_spec(data@),
        c <==> forall|i: int|
            0 <= i < data@.len() ==> !is_nan_bits(#[trigger] data@[i]) && key_of(data@[i])
                == key_of(data@[0]),
{
    if data.len() == 0 {
        return true;
    }
    proof {
        lemma_constant_means_all_keys_equal(data@);
    }
    let first = order_key(data[0]);
    let mut i: usize = 0;
    while i < data.len()
        invariant
            0 < data.len(),
            i <= data.len(),
            first == if is_nan_bits(data@[0]) {
                None
            } else {
                Some(key_of(data@[0]))
            },
            forall|j: int| 0 <= j < i ==> value_eq(#[trigger] data@[j], data@[0]),
        decreases data.len() - i,
    {
        let k = order_key(data[i]);
        proof {
            if !is_nan_bits(data@[i as int]) && !is_nan_bits(data@[0]) {
                crate::ieee::lemma_key_order_is_value_order(data@[i as int], data@[0]);
            }
        }
        match (k, first) {
            (Some(a), Some(b)) => {
                if a != b {
                    return false;
                }
            },
            _ => {
                return false;
            },
        }
        i += 1;
    }
    true
}

/// Law: a sample is constant exactly when it holds no NaN and all of its
/// observations have the key of the first one, that is, equal values; two
/// observations of different value (one larger than the other) never make
/// a constant sample.
pub proof fn lemma_constant_means_all_keys_equal(data: Seq<u64>)
    ensures
        is_constant_spec(data) <==> forall|i: int|
            0 <= i < data.len() ==> !is_nan_bits(#[trigger] data[i]) && key_of(data[i]) == key_of(
                data[0],
            ),
        forall|i: int, j: int|
            0 <= i < data.len() && 0 <= j < data.len() && is_constant_spec(data) ==> key_of(data[i])
                == key_of(data[j]),
{
    assert forall|i: int| 0 <= i < data.len() && !is_nan_bits(data[i]) && !is_nan_bits(data[0])
        implies (value_eq(data[i], data[0]) <==> key_of(data[i]) == key_of(data[0])) by {
        crate::ieee::lemma_key_order_is_value_order(data[i], data[0]);
    }
    if is_constant_spec(data) {
        assert forall|i: int| 0 <= i < data.len() implies !is_nan_bits(#[trigger] data[i])
            && key_of(data[i]) == key_of(data[0]) by {
            assert(value_eq(data[i], data[0]));
        }
    }
}

/// Law: the one-sample test refuses fewer than two observations, then an
/// input holding a NaN, and accepts every other input.
pub proof fn lemma_one_sample_refusal_reasons(data: Seq<u64>)
    ensures
        one_sample_refusal(data) == Some(AdError::TooFewObservations) <==> data.len() < 2,
        one_sample_refusal(data) == Some(AdError::ContainsNaN) <==> data.len() >= 2 && exists|
            i: int,
        | 0 <= i < data.len() && is_nan_bits(data[i]),
        one_sample_refusal(data) is None <==> data.len() >= 2 && forall|i: int|
            0 <= i < data.len() ==> !is_nan_bits(#[trigger] data[i]),
{
}

} // verus!
