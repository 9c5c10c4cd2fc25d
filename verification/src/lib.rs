//! A generic engine for Monte Carlo estimation of discrete probability
//! distributions defined as sequential random-choice processes.
//!
//! A process is modeled as a sequence of probabilistic events consumed by a
//! [`Condition`] (its running state) until the condition recognizes a terminal
//! outcome. The engine drives any such state machine to completion, turns many
//! completions into a frequency table, and derives summary statistics from it.
//!
//! Probabilities are integer weights, parts of [`WEIGHT_SCALE`]; derived
//! statistics are exact rationals. This keeps every numeric claim exact.

mod aggregate;
mod engine;
mod selector;
mod stats;

pub use engine::Condition;
pub use engine::Event;
pub use engine::Outcome;
pub use engine::StartCondition;
pub use engine::TrialTimeout;
pub use engine::fold_run;
pub use engine::sample;
pub use engine::trial_ok;
pub use engine::valid_run;

pub use selector::WEIGHT_SCALE;
pub use selector::is_chosen;
pub use selector::lemma_chosen_index_unique;
pub use selector::prefix_weight_sum;
pub use selector::select;
pub use selector::select_at;
pub use selector::weights_of;

pub use aggregate::NonnegativeRandomVariable;
pub use aggregate::bucket_count;
pub use aggregate::dropped_count;
pub use aggregate::lemma_histogram_total_mass;
pub use aggregate::sample_repeat;

pub use stats::Pmf;
pub use stats::Ratio;
pub use stats::expectation;
pub use stats::expectation_num;
pub use stats::expectation_term;
pub use stats::indexed_bins;
pub use stats::lemma_expectation_bin_reorder;
pub use stats::lemma_variance_bin_reorder;
pub use stats::prob_mass_func;
pub use stats::seq_sum;
pub use stats::term_sum;
pub use stats::variance;
pub use stats::variance_num;
pub use stats::variance_term;
