use rsomics_anderson_darling::order_key;

#[test]
fn order_key_follows_numeric_order() {
    let xs = [
        f64::NEG_INFINITY,
        -1e308,
        -2.5,
        -1.0,
        -f64::MIN_POSITIVE,
        -5e-324,
        0.0,
        5e-324,
        f64::MIN_POSITIVE,
        1.0,
        2.5,
        1e308,
        f64::INFINITY,
    ];
    for a in xs {
        for b in xs {
            let ka = order_key(a.to_bits()).unwrap();
            let kb = order_key(b.to_bits()).unwrap();
            assert_eq!(ka <= kb, a <= b, "{a} vs {b}");
            assert_eq!(ka == kb, a == b, "{a} vs {b}");
        }
    }
}

#[test]
fn order_key_merges_the_zeros() {
    assert_eq!(order_key((-0.0f64).to_bits()), order_key(0.0f64.to_bits()));
    assert_eq!(order_key(0.0f64.to_bits()), Some(0x8000_0000_0000_0000));
}

#[test]
fn order_key_refuses_nan() {
    assert_eq!(order_key(f64::NAN.to_bits()), None);
    assert_eq!(order_key((-f64::NAN).to_bits()), None);
    assert_eq!(order_key(0x7ff0_0000_0000_0001), None);
    assert!(order_key(f64::INFINITY.to_bits()).is_some());
}

#[test]
fn order_key_exact_values() {
    assert_eq!(order_key(1.0f64.to_bits()), Some(0xbff0_0000_0000_0000));
    assert_eq!(order_key((-1.0f64).to_bits()), Some(0x4010_0000_0000_0000));
    assert_eq!(order_key(f64::INFINITY.to_bits()), Some(0xfff0_0000_0000_0000));
    assert_eq!(order_key(f64::NEG_INFINITY.to_bits()), Some(0x0010_0000_0000_0000));
}
