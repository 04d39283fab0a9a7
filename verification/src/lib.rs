//! Streaming estimator for the statistical randomness quality of a byte
//! stream.
//!
//! Bytes are fed to a [`Bytestat`] engine one at a time, in arrival order.
//! The engine maintains fixed-size accumulators (a sample counter, a
//! 256-entry frequency table, a 256-entry last-seen table and a
//! 65536-entry inter-occurrence interval histogram) and derives five
//! sub-scores plus a composite score from them on demand, caching the
//! result until the next byte arrives.
//!
//! Every score is an exact rational number, represented as a [`Score`]
//! (numerator over denominator), so results are reproducible bit for bit.
//! Sub-scores lie in [0, 1]; the composite score lies in [0, 100].
use vstd::prelude::*;

mod digits;
mod engine;
mod score;
mod stats;

pub use digits::{dec_digits, score_text, scores_text};
pub use engine::{lemma_scores_deterministic, lemma_wf_model, Bytestat};
pub use score::{zero_score, Score};
pub use stats::{
    amplitude_score, composite_score, continuity_score, count_nonzero, count_significant,
    count_unique, coverage_score, dist_of, gap_of, interval_amplitude_score,
    lemma_amplitude_in_unit, lemma_composite_in_range, lemma_continuity_in_unit,
    lemma_counts_permutation_invariant, lemma_coverage_in_unit,
    lemma_frequency_scores_order_insensitive, lemma_interval_amplitude_in_unit,
    lemma_step_dist_monotonic, lemma_step_interval_monotonic, lemma_uniqueness_in_unit, max_count,
    max_significant, min_count, occ_bytes, occ_of, populated_intervals, step_dist, step_interval,
    sum_counts, threshold, uniqueness_score,
};

verus! {

} // verus!
