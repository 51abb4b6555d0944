//! Why a request is refused.
use vstd::prelude::*;

verus! {

/// The inputs the tests refuse, one variant per reason.
#[derive(Debug)]
pub enum AdError {
    /// A distribution name that is not one of the accepted names.
    UnknownDistribution(String),
    /// A one-sample test on fewer than two observations.
    TooFewObservations,
    /// An observation that is not a number.
    ContainsNaN,
    /// A k-sample test on fewer than two samples.
    TooFewSamples,
    /// A k-sample test with a sample that holds no observation.
    EmptySample,
    /// A k-sample test whose observations are all equal.
    TooFewDistinct,
    /// An input that holds no observation at all.
    NoObservations,
}

/// The human-readable text of each refusal.
pub open spec fn error_message(e: AdError) -> Seq<char> {
    match e {
        AdError::UnknownDistribution(name) => "invalid distribution '"@ + name@
            + "'; must be one of norm, expon, logistic, gumbel_l, gumbel_r"@,
        AdError::TooFewObservations => "anderson needs at least two observations"@,
        AdError::ContainsNaN => "input contains NaN"@,
        AdError::TooFewSamples => "anderson_ksamp needs at least two samples"@,
        AdError::EmptySample => "anderson_ksamp encountered a sample without observations"@,
        AdError::TooFewDistinct => "anderson_ksamp needs more than one distinct observation"@,
        AdError::NoObservations => "no observations in input"@,
    }
}

impl AdError {
    /// The message that reports this refusal.
    pub fn message(&self) -> (text: String)
        ensures
            text@ == error_message(*self),
    {
        match self {
            AdError::UnknownDistribution(name) => {
                let mut text = "invalid distribution '".to_owned();
                text.append(name.as_str());
                text.append("'; must be one of norm, expon, logistic, gumbel_l, gumbel_r");
                text
            },
            AdError::TooFewObservations => "anderson needs at least two observations".to_owned(),
            AdError::ContainsNaN => "input contains NaN".to_owned(),
            AdError::TooFewSamples => "anderson_ksamp needs at least two samples".to_owned(),
            AdError::EmptySample => "anderson_ksamp encountered a sample without observations".to_owned(),
            AdError::TooFewDistinct => "anderson_ksamp needs more than one distinct observation".to_owned(),
            AdError::NoObservations => "no observations in input".to_owned(),
        }
    }
}

/// Law: the texts of the refusals.
pub proof fn lemma_messages(name: String)
    ensures
        error_message(AdError::UnknownDistribution(name)) == "invalid distribution '"@ + name@
            + "'; must be one of norm, expon, logistic, gumbel_l, gumbel_r"@,
        error_message(AdError::TooFewObservations) == "anderson needs at least two observations"@,
        error_message(AdError::ContainsNaN) == "input contains NaN"@,
        error_message(AdError::TooFewSamples) == "anderson_ksamp needs at least two samples"@,
        error_message(AdError::EmptySample)
            == "anderson_ksamp encountered a sample without observations"@,
        error_message(AdError::TooFewDistinct)
            == "anderson_ksamp needs more than one distinct observation"@,
        error_message(AdError::NoObservations) == "no observations in input"@,
{
}

} // verus!
