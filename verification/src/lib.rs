//! Nonparametric two-sample location testing: the Wilcoxon rank-sum
//! (Mann-Whitney U) statistics, computed exactly.
//!
//! Observations enter as integer keys in non-decreasing order (any monotone
//! encoding of the underlying measurements works, since ranks depend only on
//! order). The crate groups them, merges the two samples with shared
//! midranks for ties, and derives the rank-sum statistic, both Mann-Whitney
//! U values, and the exact building blocks of the large-sample z-score.
//! Ranks are half-integers, so every statistic is carried as twice its
//! value in `u64` arithmetic and all results are exact.

use vstd::prelude::*;

mod errors;
mod ranks;
mod grouping;
mod hypothesis;
mod rank_sum;

pub use errors::StatsError;
pub use errors::StatsResult;
pub use grouping::IterWithCounts;
pub use grouping::group_spec;
pub use grouping::groups_strictly_sorted;
pub use grouping::iter_with_counts;
pub use grouping::lemma_group_count_bounds;
pub use grouping::lemma_group_sorted_iff;
pub use grouping::lemma_group_total;
pub use grouping::non_decreasing;
pub use grouping::total_count;
pub use hypothesis::AltHyp;
pub use hypothesis::Hyp;
pub use hypothesis::PositionWrtCi;
pub use hypothesis::accepted_hypothesis;
pub use rank_sum::HalfInt;
pub use rank_sum::RankSum;
pub use rank_sum::ZScore;
pub use rank_sum::lemma_u_bounds;
pub use rank_sum::lemma_u_complementarity;
pub use ranks::counts_positive;
pub use ranks::groups_shiftable;
pub use ranks::lemma_group_shift;
pub use ranks::lemma_rank_sum_complementarity;
pub use ranks::lemma_w2_bounds;
pub use ranks::lemma_w_shift_monotone;
pub use ranks::shift_groups;
pub use ranks::shift_values;
pub use ranks::values_shiftable;
pub use ranks::rank_sum_x2_spec;
pub use ranks::ties_spec;
pub use ranks::w2_spec;

verus! {

/// Largest combined number of observations the library accepts.
///
/// Rank computations are carried out in exact 64-bit integer arithmetic on
/// doubled ranks; this bound keeps every intermediate quantity, including the
/// tie-correction accumulator, well below `u64::MAX`.
pub const MAX_TOTAL_COUNT: u64 = 1048576;

} // verus!
