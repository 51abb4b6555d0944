use rsomics_anderson_darling::{
    AdError, ksample_critical_coefficients_thousandths, ksample_ranks,
    ksample_significance_thousandths, order_key,
};

fn bits(samples: &[Vec<f64>]) -> Vec<Vec<u64>> {
    samples
        .iter()
        .map(|s| s.iter().map(|x| x.to_bits()).collect())
        .collect()
}

fn key(x: f64) -> u128 {
    order_key(x.to_bits()).unwrap() as u128
}

#[test]
fn rejects_single_sample() {
    assert!(ksample_ranks(&bits(&[vec![1.0, 2.0]])).is_err());
}

#[test]
fn ksample_refusals_name_their_reason() {
    assert!(matches!(
        ksample_ranks(&bits(&[])),
        Err(AdError::TooFewSamples)
    ));
    assert!(matches!(
        ksample_ranks(&bits(&[vec![1.0], vec![], vec![f64::NAN]])),
        Err(AdError::EmptySample)
    ));
    // The first offending sample decides.
    assert!(matches!(
        ksample_ranks(&bits(&[vec![1.0], vec![2.0, f64::NAN], vec![]])),
        Err(AdError::ContainsNaN)
    ));
    assert!(matches!(
        ksample_ranks(&bits(&[vec![4.0, 4.0], vec![4.0], vec![4.0]])),
        Err(AdError::TooFewDistinct)
    ));
    // The two zeros are one value.
    assert!(matches!(
        ksample_ranks(&bits(&[vec![0.0], vec![-0.0]])),
        Err(AdError::TooFewDistinct)
    ));
    assert_eq!(
        AdError::TooFewSamples.message(),
        "anderson_ksamp needs at least two samples"
    );
    assert_eq!(
        AdError::EmptySample.message(),
        "anderson_ksamp encountered a sample without observations"
    );
    assert_eq!(
        AdError::TooFewDistinct.message(),
        "anderson_ksamp needs more than one distinct observation"
    );
}

#[test]
fn ranks_with_ties() {
    let r = ksample_ranks(&bits(&[vec![3.0, 2.0, 1.0, 2.0], vec![4.0, 2.0]])).unwrap();
    assert_eq!(r.total, 6);
    assert_eq!(r.sample_sizes, vec![4, 2]);
    assert_eq!(r.distinct, vec![key(1.0), key(2.0), key(3.0), key(4.0)]);
    assert_eq!(r.pooled_below, vec![0, 1, 4, 5]);
    assert_eq!(r.pooled_ties, vec![1, 3, 1, 1]);
    assert_eq!(r.sample_at_most, vec![vec![1, 3, 4, 4], vec![0, 1, 1, 2]]);
    assert_eq!(r.sample_ties, vec![vec![1, 2, 1, 0], vec![0, 1, 0, 1]]);
}

#[test]
fn rank_laws_hold_on_an_example() {
    let samples = vec![
        vec![0.5, -1.0, 2.0, 2.0, 7.5],
        vec![2.0, -0.0, 0.0, 3.25],
        vec![7.5, 7.5, -1.0],
    ];
    let r = ksample_ranks(&bits(&samples)).unwrap();
    let l = r.distinct.len();
    // Ranks accumulate: below[0] = 0, below[m+1] = below[m] + ties[m].
    assert_eq!(r.pooled_below[0], 0);
    for m in 0..l - 1 {
        assert_eq!(r.pooled_below[m + 1], r.pooled_below[m] + r.pooled_ties[m]);
    }
    // Every observation is counted once among the ties.
    assert_eq!(r.pooled_ties.iter().sum::<usize>(), r.total);
    assert_eq!(r.total, 12);
    // Ties are shared out among the samples.
    for m in 0..l {
        let column: usize = r.sample_ties.iter().map(|row| row[m]).sum();
        assert_eq!(column, r.pooled_ties[m]);
    }
    // A sample's cumulative count ends at its size.
    for (i, row) in r.sample_at_most.iter().enumerate() {
        assert_eq!(row[l - 1], r.sample_sizes[i]);
    }
    // The distinct values ascend.
    assert!(r.distinct.windows(2).all(|w| w[0] < w[1]));
    assert_eq!(l, 6);
}

#[test]
fn ranks_do_not_depend_on_the_order_within_samples() {
    let a = ksample_ranks(&bits(&[vec![5.0, 1.0, 3.0], vec![2.0, 2.0, 9.0]])).unwrap();
    let b = ksample_ranks(&bits(&[vec![3.0, 5.0, 1.0], vec![9.0, 2.0, 2.0]])).unwrap();
    assert_eq!(a.distinct, b.distinct);
    assert_eq!(a.pooled_below, b.pooled_below);
    assert_eq!(a.pooled_ties, b.pooled_ties);
    assert_eq!(a.sample_at_most, b.sample_at_most);
    assert_eq!(a.sample_ties, b.sample_ties);
}

#[test]
fn ksample_tables() {
    assert_eq!(
        ksample_significance_thousandths(),
        vec![250, 100, 50, 25, 10, 5, 1]
    );
    let c = ksample_critical_coefficients_thousandths();
    assert_eq!(c.len(), 7);
    assert_eq!(c[0], (675, -245, -105));
    assert_eq!(c[3], (1960, 1149, -391));
    assert_eq!(c[6], (3085, 3615, -154));
    assert!(c.windows(2).all(|w| w[0].0 < w[1].0));
}
