use vstd::prelude::*;
use vstd::utf8::{encode_utf8, encode_utf8_decode_utf8, is_ascii_chars, is_ascii_chars_encode_utf8};
use crate::error::AdError;

verus! {

/// The reference distributions of the one-sample test.
#[derive(Clone, Copy, Debug, PartialEq, Eq, Structural)]
pub enum Dist {
    Norm,
    Expon,
    Logistic,
    GumbelR,
    GumbelL,
}

/// The canonical name of each distribution.
pub open spec fn dist_name(d: Dist) -> Seq<char> {
    match d {
        Dist::Norm => seq!['n', 'o', 'r', 'm'],
        Dist::Expon => seq!['e', 'x', 'p', 'o', 'n'],
        Dist::Logistic => seq!['l', 'o', 'g', 'i', 's', 't', 'i', 'c'],
        Dist::GumbelR => seq!['g', 'u', 'm', 'b', 'e', 'l', '_', 'r'],
        Dist::GumbelL => seq!['g', 'u', 'm', 'b', 'e', 'l', '_', 'l'],
    }
}

/// `gumbel`, a further name of the left-skewed Gumbel distribution.
pub open spec fn gumbel_alias() -> Seq<char> {
    seq!['g', 'u', 'm', 'b', 'e', 'l']
}

/// `extreme1`, a further name of the left-skewed Gumbel distribution.
pub open spec fn extreme_value_alias() -> Seq<char> {
    seq!['e', 'x', 't', 'r', 'e', 'm', 'e', '1']
}

/// The distribution a name selects: the canonical names, and `gumbel` and
/// `extreme1` as further names of the left-skewed Gumbel distribution.
pub open spec fn dist_named(name: Seq<char>) -> Option<Dist> {
    if name == dist_name(Dist::Norm) {
        Some(Dist::Norm)
    } else if name == dist_name(Dist::Expon) {
        Some(Dist::Expon)
    } else if name == dist_name(Dist::Logistic) {
        Some(Dist::Logistic)
    } else if name == dist_name(Dist::GumbelR) {
        Some(Dist::GumbelR)
    } else if name == dist_name(Dist::GumbelL) || name == gumbel_alias() || name
        == extreme_value_alias() {
        Some(Dist::GumbelL)
    } else {
        None
    }
}

/// Whether two byte slices hold the same bytes.
fn same_bytes(a: &[u8], b: &[u8]) -> (same: bool)
    ensures
        same == (a@ == b@),
{
    if a.len() != b.len() {
        return false;
    }
    let mut i: usize = 0;
    while i < a.len()
        invariant
            a@.len() == b@.len(),
            i <= a@.len(),
            forall|j: int| 0 <= j < i ==> a@[j] == b@[j],
        decreases a@.len() - i,
    {
        if a[i] != b[i] {
            return false;
        }
        i += 1;
    }
    proof {
        assert(a@ =~= b@);
    }
    true
}

/// Whether `s` is spelled `name`, an ASCII word whose bytes are `spelling`.
fn is_spelled(s: &str, spelling: &[u8], Ghost(name): Ghost<Seq<char>>) -> (yes: bool)
    requires
        is_ascii_chars(name),
        spelling@.len() == name.len(),
        forall|i: int| 0 <= i < name.len() ==> #[trigger] spelling@[i] == name[i] as u8,
    ensures
        yes == (s@ == name),
{
    let bytes = s.as_bytes();
    let same = same_bytes(bytes, spelling);
    proof {
        is_ascii_chars_encode_utf8(name);
        assert(encode_utf8(name) =~= spelling@);
        encode_utf8_decode_utf8(s@);
        encode_utf8_decode_utf8(name);
    }
    same
}

impl Dist {
    /// The distribution named `s`, or the refusal of an unknown name.
    pub fn parse(s: &str) -> (r: Result<Dist, AdError>)
        ensures
            match dist_named(s@) {
                Some(d) => r == Ok::<Dist, AdError>(d),
                None => r matches Err(AdError::UnknownDistribution(name)) && name@ == s@,
            },
    {
        if is_spelled(s, &[110, 111, 114, 109], Ghost(dist_name(Dist::Norm))) {
            Ok(Dist::Norm)
        } else if is_spelled(s, &[101, 120, 112, 111, 110], Ghost(dist_name(Dist::Expon))) {
            Ok(Dist::Expon)
        } else if is_spelled(
            s,
            &[108, 111, 103, 105, 115, 116, 105, 99],
            Ghost(dist_name(Dist::Logistic)),
        ) {
            Ok(Dist::Logistic)
        } else if is_spelled(
            s,
            &[103, 117, 109, 98, 101, 108, 95, 114],
            Ghost(dist_name(Dist::GumbelR)),
        ) {
            Ok(Dist::GumbelR)
        } else if is_spelled(
            s,
            &[103, 117, 109, 98, 101, 108, 95, 108],
            Ghost(dist_name(Dist::GumbelL)),
        ) || is_spelled(
            s,
            &[103, 117, 109, 98, 101, 108],
            Ghost(gumbel_alias()),
        ) || is_spelled(
            s,
            &[101, 120, 116, 114, 101, 109, 101, 49],
            Ghost(extreme_value_alias()),
        ) {
            Ok(Dist::GumbelL)
        } else {
            Err(AdError::UnknownDistribution(s.to_owned()))
        }
    }

    /// The canonical name, as accepted by `parse`.
    pub fn as_str(self) -> (name: &'static str)
        ensures
            name@ == dist_name(self),
    {
        match self {
            Dist::Norm => {
                proof {
                    reveal_strlit("norm");
                }
                "norm"
            },
            Dist::Expon => {
                proof {
                    reveal_strlit("expon");
                }
                "expon"
            },
            Dist::Logistic => {
                proof {
                    reveal_strlit("logistic");
                }
                "logistic"
            },
            Dist::GumbelR => {
                proof {
                    reveal_strlit("gumbel_r");
                }
                "gumbel_r"
            },
            Dist::GumbelL => {
                proof {
                    reveal_strlit("gumbel_l");
                }
                "gumbel_l"
            },
        }
    }
}

/// The significance levels of the tabulated critical values, in tenths of
/// a percent, most lenient first.
pub open spec fn significance_tenths(d: Dist) -> Seq<u32> {
    match d {
        Dist::Norm | Dist::Expon => seq![150, 100, 50, 25, 10],
        Dist::Logistic => seq![250, 100, 50, 25, 10, 5],
        Dist::GumbelR | Dist::GumbelL => seq![250, 100, 50, 25, 10],
    }
}

/// The asymptotic critical values, in thousandths, one per significance
/// level; the test scales them by a sample-size correction.
pub open spec fn base_critical_thousandths(d: Dist) -> Seq<u32> {
    match d {
        Dist::Norm => seq![561, 631, 752, 873, 1035],
        Dist::Expon => seq![916, 1062, 1321, 1591, 1959],
        Dist::Logistic => seq![426, 563, 660, 769, 906, 1010],
        Dist::GumbelR | Dist::GumbelL => seq![474, 637, 757, 877, 1038],
    }
}

impl Dist {
    /// The significance levels in tenths of a percent (15% is 150).
    pub fn significance_tenths_of_percent(self) -> (levels: Vec<u32>)
        ensures
            levels@ == significance_tenths(self),
    {
        let levels = match self {
            Dist::Norm | Dist::Expon => vec![150, 100, 50, 25, 10],
            Dist::Logistic => vec![250, 100, 50, 25, 10, 5],
            Dist::GumbelR | Dist::GumbelL => vec![250, 100, 50, 25, 10],
        };
        proof {
            assert(levels@ =~= significance_tenths(self));
        }
        levels
    }

    /// The asymptotic critical values in thousandths (0.561 is 561).
    pub fn base_critical_values_thousandths(self) -> (values: Vec<u32>)
        ensures
            values@ == base_critical_thousandths(self),
    {
        let values = match self {
            Dist::Norm => vec![561, 631, 752, 873, 1035],
            Dist::Expon => vec![916, 1062, 1321, 1591, 1959],
            Dist::Logistic => vec![426, 563, 660, 769, 906, 1010],
            Dist::GumbelR | Dist::GumbelL => vec![474, 637, 757, 877, 1038],
        };
        proof {
            assert(values@ =~= base_critical_thousandths(self));
        }
        values
    }
}

/// Law: `parse` reads back what `as_str` writes, for every distribution.
pub proof fn lemma_parse_reads_canonical_name(d: Dist)
    ensures
        dist_named(dist_name(d)) == Some(d),
{
    let n = dist_name(d);
    assert(n.len() != gumbel_alias().len());
    if d == Dist::GumbelR {
        assert(n[7] != dist_name(Dist::GumbelL)[7]);
    }
    if d == Dist::Logistic {
        assert(n[0] != extreme_value_alias()[0]);
    }
    if d == Dist::GumbelR || d == Dist::GumbelL {
        assert(n[0] != extreme_value_alias()[0]);
    }
}

/// Law: the names accepted by `parse` are exactly the canonical names and
/// the two further names of the left-skewed Gumbel distribution.
pub proof fn lemma_accepted_names(name: Seq<char>)
    ensures
        dist_named(name) is Some <==> (exists|d: Dist| name == dist_name(d)) || name
            == gumbel_alias() || name == extreme_value_alias(),
{
    if exists|d: Dist| name == dist_name(d) {
        let d = choose|d: Dist| name == dist_name(d);
        lemma_parse_reads_canonical_name(d);
    }
    if dist_named(name) is Some {
        let d = dist_named(name)->Some_0;
        if name != gumbel_alias() && name != extreme_value_alias() {
            assert(name == dist_name(d));
        }
    }
}

/// Law: each significance level has its critical value, the levels tighten
/// from first to last, and the critical values grow with them.
pub proof fn lemma_tables_agree(d: Dist)
    ensures
        significance_tenths(d).len() == base_critical_thousandths(d).len(),
        forall|i: int, j: int|
            0 <= i < j < significance_tenths(d).len() ==> significance_tenths(d)[i]
                > significance_tenths(d)[j] && base_critical_thousandths(d)[i]
                < base_critical_thousandths(d)[j],
{
}

/// Law: the significance levels of every test end with 10%, 5%, 2.5% and
/// 1% (logistic one level further, 0.5%); the normal and exponential tests
/// share their levels and open at 15%, the logistic and both Gumbel tests
/// open at 25%.
pub proof fn lemma_significance_levels(d: Dist)
    ensures
        significance_tenths(Dist::Expon) == significance_tenths(Dist::Norm),
        significance_tenths(Dist::GumbelR) == significance_tenths(Dist::GumbelL),
        significance_tenths(d)[0] == if d == Dist::Norm || d == Dist::Expon {
            150u32
        } else {
            250u32
        },
        significance_tenths(d)[1] == 100,
        significance_tenths(d)[2] == 50,
        significance_tenths(d)[3] == 25,
        significance_tenths(d)[4] == 10,
        significance_tenths(d).len() == if d == Dist::Logistic {
            6nat
        } else {
            5nat
        },
        d == Dist::Logistic ==> significance_tenths(d)[5] == 5,
{
    assert(significance_tenths(Dist::Expon) =~= significance_tenths(Dist::Norm));
    assert(significance_tenths(Dist::GumbelR) =~= significance_tenths(Dist::GumbelL));
}

/// Law: the two Gumbel tests share one critical table, and each table opens
/// at its published 15%/25% value: 0.561 for the normal, 0.916 for the
/// exponential, 0.426 for the logistic and 0.474 for the Gumbel test; at the
/// tightest tabulated level the values are 1.035, 1.959, 1.010 and 1.038.
pub proof fn lemma_critical_tables(d: Dist)
    ensures
        base_critical_thousandths(Dist::GumbelR) == base_critical_thousandths(Dist::GumbelL),
        base_critical_thousandths(d)[0] == match d {
            Dist::Norm => 561u32,
            Dist::Expon => 916u32,
            Dist::Logistic => 426u32,
            Dist::GumbelR | Dist::GumbelL => 474u32,
        },
        base_critical_thousandths(d).last() == match d {
            Dist::Norm => 1035u32,
            Dist::Expon => 1959u32,
            Dist::Logistic => 1010u32,
            Dist::GumbelR | Dist::GumbelL => 1038u32,
        },
        base_critical_thousandths(Dist::GumbelR) == seq![474u32, 637, 757, 877, 1038],
        base_critical_thousandths(Dist::Expon) == seq![916u32, 1062, 1321, 1591, 1959],
        base_critical_thousandths(Dist::Norm) == seq![561u32, 631, 752, 873, 1035],
        base_critical_thousandths(Dist::Logistic) == seq![426u32, 563, 660, 769, 906, 1010],
{
    assert(base_critical_thousandths(Dist::GumbelR) =~= base_critical_thousandths(Dist::GumbelL));
    assert(base_critical_thousandths(Dist::GumbelR) =~= seq![474u32, 637, 757, 877, 1038]);
    assert(base_critical_thousandths(Dist::Expon) =~= seq![916u32, 1062, 1321, 1591, 1959]);
    assert(base_critical_thousandths(Dist::Norm) =~= seq![561u32, 631, 752, 873, 1035]);
    assert(base_critical_thousandths(Dist::Logistic) =~= seq![426u32, 563, 660, 769, 906, 1010]);
}

/// Law: the accepted spellings: `norm`, `expon`, `logistic` and `gumbel_r`
/// select their own distribution, and `gumbel_l`, `gumbel` and `extreme1`
/// all select the left-skewed Gumbel distribution; the canonical name of
/// each distribution is the first of its spellings.
pub proof fn lemma_spellings()
    ensures
        dist_named(seq!['n', 'o', 'r', 'm']) == Some(Dist::Norm),
        dist_named(seq!['e', 'x', 'p', 'o', 'n']) == Some(Dist::Expon),
        dist_named(seq!['l', 'o', 'g', 'i', 's', 't', 'i', 'c']) == Some(Dist::Logistic),
        dist_named(seq!['g', 'u', 'm', 'b', 'e', 'l', '_', 'r']) == Some(Dist::GumbelR),
        dist_named(seq!['g', 'u', 'm', 'b', 'e', 'l', '_', 'l']) == Some(Dist::GumbelL),
        dist_named(seq!['g', 'u', 'm', 'b', 'e', 'l']) == Some(Dist::GumbelL),
        dist_named(seq!['e', 'x', 't', 'r', 'e', 'm', 'e', '1']) == Some(Dist::GumbelL),
        dist_name(Dist::Norm) == seq!['n', 'o', 'r', 'm'],
        dist_name(Dist::Expon) == seq!['e', 'x', 'p', 'o', 'n'],
        dist_name(Dist::Logistic) == seq!['l', 'o', 'g', 'i', 's', 't', 'i', 'c'],
        dist_name(Dist::GumbelR) == seq!['g', 'u', 'm', 'b', 'e', 'l', '_', 'r'],
        dist_name(Dist::GumbelL) == seq!['g', 'u', 'm', 'b', 'e', 'l', '_', 'l'],
        forall|name: Seq<char>| name.len() == 0 ==> dist_named(name) is None,
{
    lemma_parse_reads_canonical_name(Dist::Norm);
    lemma_parse_reads_canonical_name(Dist::Expon);
    lemma_parse_reads_canonical_name(Dist::Logistic);
    lemma_parse_reads_canonical_name(Dist::GumbelR);
    lemma_parse_reads_canonical_name(Dist::GumbelL);
    let g = seq!['g', 'u', 'm', 'b', 'e', 'l'];
    assert(g.len() != dist_name(Dist::Norm).len());
    assert(g.len() != dist_name(Dist::Expon).len());
    assert(g.len() != dist_name(Dist::Logistic).len());
    assert(g.len() != dist_name(Dist::GumbelR).len());
    assert(g.len() != dist_name(Dist::GumbelL).len());
    assert(g =~= gumbel_alias());
    let e = seq!['e', 'x', 't', 'r', 'e', 'm', 'e', '1'];
    assert(e.len() != dist_name(Dist::Norm).len());
    assert(e.len() != dist_name(Dist::Expon).len());
    assert(e.len() != gumbel_alias().len());
    assert(e[0] != dist_name(Dist::Logistic)[0]);
    assert(e[0] != dist_name(Dist::GumbelR)[0]);
    assert(e[0] != dist_name(Dist::GumbelL)[0]);
    assert(e =~= extreme_value_alias());
    assert forall|name: Seq<char>| name.len() == 0 implies dist_named(name) is None by {
        assert(name != dist_name(Dist::Norm));
        assert(name.len() != dist_name(Dist::Expon).len());
        assert(name.len() != dist_name(Dist::Logistic).len());
        assert(name.len() != dist_name(Dist::GumbelR).len());
        assert(name.len() != dist_name(Dist::GumbelL).len());
        assert(name.len() != gumbel_alias().len());
        assert(name.len() != extreme_value_alias().len());
    }
}

} // verus!
