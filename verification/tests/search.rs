use rsomics_anderson_darling::{merge_sort, order_key, searchsorted, unique_sorted};

fn keys(xs: &[f64]) -> Vec<u128> {
    xs.iter()
        .map(|x| order_key(x.to_bits()).unwrap() as u128)
        .collect()
}

#[test]
fn searchsorted_sides() {
    let a = keys(&[1.0, 2.0, 2.0, 3.0]);
    let two = keys(&[2.0])[0];
    let zero = keys(&[0.0])[0];
    let five = keys(&[5.0])[0];
    assert_eq!(searchsorted(&a, two, false), 1); // left: # < 2
    assert_eq!(searchsorted(&a, two, true), 3); // right: # <= 2
    assert_eq!(searchsorted(&a, zero, false), 0);
    assert_eq!(searchsorted(&a, five, true), 4);
}

#[test]
fn unique_drops_dupes() {
    assert_eq!(
        unique_sorted(&keys(&[1.0, 1.0, 2.0, 3.0, 3.0])),
        keys(&[1.0, 2.0, 3.0])
    );
}

#[test]
fn searchsorted_left_and_right_bracket_the_ties() {
    // Law: right - left is the number of elements equal to the value.
    let a: Vec<u128> = vec![1, 4, 4, 4, 9];
    for v in 0..11u128 {
        let left = searchsorted(&a, v, false);
        let right = searchsorted(&a, v, true);
        assert!(left <= right);
        assert_eq!(right - left, a.iter().filter(|&&x| x == v).count());
    }
}

#[test]
fn searchsorted_on_empty_is_zero() {
    assert_eq!(searchsorted(&vec![], 7, false), 0);
    assert_eq!(searchsorted(&vec![], 7, true), 0);
}

#[test]
fn unique_of_empty_and_single() {
    assert_eq!(unique_sorted(&vec![]), Vec::<u128>::new());
    assert_eq!(unique_sorted(&vec![5, 5, 5]), vec![5]);
}

#[test]
fn merge_sort_sorts_and_keeps_elements() {
    let v: Vec<u128> = vec![5, 3, 9, 1, 3, 0, u128::MAX, 7];
    let s = merge_sort(&v);
    let mut expected = v.clone();
    expected.sort();
    assert_eq!(s, expected);
    // Sorting is idempotent.
    assert_eq!(merge_sort(&s), s);
    assert_eq!(merge_sort(&vec![]), Vec::<u128>::new());
}
