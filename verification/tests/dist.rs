use rsomics_anderson_darling::{AdError, Dist};

const ALL: [Dist; 5] = [
    Dist::Norm,
    Dist::Expon,
    Dist::Logistic,
    Dist::GumbelR,
    Dist::GumbelL,
];

#[test]
fn parse_reads_back_every_canonical_name() {
    for d in ALL {
        assert_eq!(Dist::parse(d.as_str()).unwrap(), d);
    }
}

#[test]
fn canonical_names() {
    assert_eq!(Dist::Norm.as_str(), "norm");
    assert_eq!(Dist::Expon.as_str(), "expon");
    assert_eq!(Dist::Logistic.as_str(), "logistic");
    assert_eq!(Dist::GumbelR.as_str(), "gumbel_r");
    assert_eq!(Dist::GumbelL.as_str(), "gumbel_l");
}

#[test]
fn gumbel_aliases_select_the_left_skewed_gumbel() {
    assert_eq!(Dist::parse("gumbel").unwrap(), Dist::GumbelL);
    assert_eq!(Dist::parse("extreme1").unwrap(), Dist::GumbelL);
}

#[test]
fn unknown_names_are_refused_with_the_name() {
    for name in ["", "Norm", "normal", "gumbel_", "extreme", "expon "] {
        match Dist::parse(name) {
            Err(AdError::UnknownDistribution(n)) => assert_eq!(n, name),
            other => panic!("{name:?}: {other:?}"),
        }
    }
    let e = Dist::parse("cauchy").unwrap_err();
    assert_eq!(
        e.message(),
        "invalid distribution 'cauchy'; must be one of norm, expon, logistic, gumbel_l, gumbel_r"
    );
}

#[test]
fn significance_levels_and_critical_tables() {
    assert_eq!(
        Dist::Norm.significance_tenths_of_percent(),
        vec![150, 100, 50, 25, 10]
    );
    assert_eq!(
        Dist::Logistic.significance_tenths_of_percent(),
        vec![250, 100, 50, 25, 10, 5]
    );
    assert_eq!(
        Dist::GumbelR.significance_tenths_of_percent(),
        vec![250, 100, 50, 25, 10]
    );
    assert_eq!(
        Dist::Norm.base_critical_values_thousandths(),
        vec![561, 631, 752, 873, 1035]
    );
    assert_eq!(
        Dist::Expon.base_critical_values_thousandths(),
        vec![916, 1062, 1321, 1591, 1959]
    );
    assert_eq!(
        Dist::Logistic.base_critical_values_thousandths(),
        vec![426, 563, 660, 769, 906, 1010]
    );
    assert_eq!(
        Dist::GumbelL.base_critical_values_thousandths(),
        vec![474, 637, 757, 877, 1038]
    );
    // One critical value per significance level; levels tighten, values grow.
    for d in ALL {
        let s = d.significance_tenths_of_percent();
        let c = d.base_critical_values_thousandths();
        assert_eq!(s.len(), c.len());
        assert!(s.windows(2).all(|w| w[0] > w[1]));
        assert!(c.windows(2).all(|w| w[0] < w[1]));
    }
}

#[test]
fn significance_levels_in_percent() {
    // The percent levels of the normal test are 15, 10, 5, 2.5 and 1.
    let pct: Vec<f64> = Dist::Norm
        .significance_tenths_of_percent()
        .into_iter()
        .map(|t| f64::from(t) / 10.0)
        .collect();
    assert_eq!(pct, vec![15.0, 10.0, 5.0, 2.5, 1.0]);
}
