use rsomics_anderson_darling::{AdError, is_constant, one_sample_order};

fn bits(xs: &[f64]) -> Vec<u64> {
    xs.iter().map(|x| x.to_bits()).collect()
}

#[test]
fn rejects_short_input() {
    assert!(one_sample_order(&bits(&[1.0])).is_err());
}

#[test]
fn rejects_nan() {
    assert!(one_sample_order(&bits(&[1.0, f64::NAN, 2.0])).is_err());
}

#[test]
fn refusals_name_their_reason() {
    assert!(matches!(
        one_sample_order(&bits(&[])),
        Err(AdError::TooFewObservations)
    ));
    // Too few observations is reported before a NaN.
    assert!(matches!(
        one_sample_order(&bits(&[f64::NAN])),
        Err(AdError::TooFewObservations)
    ));
    assert!(matches!(
        one_sample_order(&bits(&[1.0, 2.0, f64::NAN])),
        Err(AdError::ContainsNaN)
    ));
    assert_eq!(
        AdError::TooFewObservations.message(),
        "anderson needs at least two observations"
    );
    assert_eq!(AdError::ContainsNaN.message(), "input contains NaN");
}

#[test]
fn order_sorts_ascending() {
    let x = [
        0.5, 1.2, -0.3, 2.1, 0.8, -1.1, 1.5, 0.2, -0.7, 1.9, 0.4, -0.5, 1.1, 0.9, -0.2,
    ];
    let order = one_sample_order(&bits(&x)).unwrap();
    let sorted: Vec<f64> = order.iter().map(|&i| x[i]).collect();
    let mut expected = x.to_vec();
    expected.sort_by(|a, b| a.partial_cmp(b).unwrap());
    assert_eq!(sorted, expected);
    let mut seen = order.clone();
    seen.sort();
    assert_eq!(seen, (0..x.len()).collect::<Vec<_>>());
}

#[test]
fn order_is_stable_on_ties() {
    // Equal values, the two zeros among them, keep their input order.
    let x = [2.0, -0.0, 1.0, 0.0, 2.0, -3.0, 1.0];
    let order = one_sample_order(&bits(&x)).unwrap();
    assert_eq!(order, vec![5, 1, 3, 2, 6, 0, 4]);
}

#[test]
fn order_handles_infinities() {
    let x = [f64::INFINITY, 1.0, f64::NEG_INFINITY];
    assert_eq!(one_sample_order(&bits(&x)).unwrap(), vec![2, 1, 0]);
}

#[test]
fn constant_samples() {
    assert!(is_constant(&bits(&[3.0, 3.0, 3.0])));
    assert!(is_constant(&bits(&[0.0, -0.0])));
    assert!(is_constant(&bits(&[])));
    assert!(!is_constant(&bits(&[3.0, 3.0, 3.5])));
    assert!(!is_constant(&bits(&[f64::NAN, f64::NAN])));
    assert!(!is_constant(&bits(&[1.0, f64::NAN])));
}

#[test]
fn order_of_sorted_data_is_identity() {
    let x = [-2.0, -2.0, -0.5, 0.0, 0.0, 1.0, 3.0, 3.0];
    assert_eq!(
        one_sample_order(&bits(&x)).unwrap(),
        (0..x.len()).collect::<Vec<_>>()
    );
}
