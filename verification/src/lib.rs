//! Anderson-Darling goodness-of-fit tests: the verified core.
//!
//! Observations enter this library as IEEE-754 double bit patterns (`u64`).
//! Everything that decides (validation, ordering, ties, ranks, tables, the
//! input format, the distribution names) is computed here on integers and
//! proved against its contract; the floating-point formulas that turn these
//! ranks and orders into the A² statistic live in the application crate.

pub mod dist;
pub mod error;
pub mod ieee;
pub mod input;
pub mod ksample;
pub mod order;
pub mod onesample;
pub mod counting;
pub mod search;

pub use dist::Dist;
pub use error::AdError;
pub use ieee::order_key;
pub use input::{value_fields, ValueField};
pub use ksample::{
    ksample_critical_coefficients_thousandths, ksample_ranks, ksample_significance_thousandths,
    KSampleRanks,
};
pub use onesample::{is_constant, one_sample_order};
pub use order::merge_sort;
pub use search::{searchsorted, unique_sorted};
