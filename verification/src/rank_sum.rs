//! The Wilcoxon rank-sum statistics over two ordered samples.
//!
//! [`RankSum`] is built by a single tie-aware merge of two grouped samples.
//! Because midranks are half-integers, the rank-sum statistic `W` and both
//! Mann-Whitney U statistics are stored and returned doubled, which keeps
//! every computation exact.

use vstd::prelude::*;

use crate::MAX_TOTAL_COUNT;
use crate::errors::StatsError;
use crate::errors::StatsResult;
use crate::grouping::group_spec;
use crate::grouping::groups_strictly_sorted;
use crate::grouping::iter_with_counts;
use crate::grouping::lemma_group_count_bounds;
use crate::grouping::lemma_group_sorted_iff;
use crate::grouping::lemma_group_total;
use crate::grouping::non_decreasing;
use crate::grouping::total_count;
use crate::ranks::cnt_eq;
use crate::ranks::cnt_lt;
use crate::ranks::contrib2;
use crate::ranks::counts_positive;
use crate::ranks::lemma_cnt_eq_one_absent;
use crate::ranks::lemma_cnt_eq_one_at;
use crate::ranks::lemma_cnt_lt_one_split;
use crate::ranks::lemma_rank_sum2_take_step;
use crate::ranks::lemma_rank_sum_complementarity;
use crate::ranks::lemma_ties_one_take_step;
use crate::ranks::lemma_total_nonneg;
use crate::ranks::lemma_total_take_le;
use crate::ranks::lemma_total_take_step;
use crate::ranks::lemma_w2_bounds;
use crate::ranks::rank_sum2;
use crate::ranks::rank_sum_x2_spec;
use crate::ranks::tie_term;
use crate::ranks::ties_one;
use crate::ranks::ties_spec;
use crate::ranks::w2_spec;

verus! {

/// A non-negative half-integer, stored as its doubled value.
///
/// Midranks, rank sums and Mann-Whitney U statistics are either whole or
/// end in exactly one half, so `halves / 2` represents them without loss.
#[derive(Debug, Clone, Copy, PartialEq, Eq, Structural)]
pub struct HalfInt {
    /// Twice the represented value.
    pub halves: u64,
}

/// Wilcoxon rank-sum statistics of two samples, produced by one tie-aware
/// merge of the ordered observations.
///
/// `w2` is twice the rank-sum statistic `W` of sample Y: the sum, over the
/// observations of Y, of their midranks within the combined ranking of both
/// samples. `ties_sum_prod` accumulates `(m-1)*m*(m+1)` for each side's
/// participation in a tied cohort of combined size `m`, the quantity the
/// normal approximation subtracts from the null variance.
#[derive(Debug, Clone, Copy, PartialEq, Eq, Structural)]
pub struct RankSum {
    /// Size of sample X.
    pub n_x: u64,
    /// Size of sample Y.
    pub n_y: u64,
    /// Twice the rank-sum statistic `W` of sample Y.
    pub w2: u64,
    /// Tie-correction accumulator.
    pub ties_sum_prod: u64,
}

/// The exact building blocks of the z-score of the large-sample normal
/// approximation: `z = (num2 / 2) / sqrt(var_num / var_den)`.
///
/// `num2` is twice the negated deviation of `W` from its null expectation,
/// and `var_num / var_den` is the tie-corrected null variance of `W`, an
/// exact rational with positive numerator and denominator.
#[derive(Debug, Clone, Copy, PartialEq, Eq, Structural)]
pub struct ZScore {
    /// Twice `E0 - W`, where `E0 = n_y * (n_x + n_y + 1) / 2`.
    pub num2: i64,
    /// Numerator of the tie-corrected null variance of `W`.
    pub var_num: u128,
    /// Denominator of the tie-corrected null variance of `W`.
    pub var_den: u64,
}

impl ZScore {
    /// The variance is strictly positive, so the z-score is well defined.
    pub open spec fn wf(&self) -> bool {
        &&& self.var_num >= 1
        &&& self.var_den >= 1
    }
}

impl RankSum {
    /// The bounds every merge result satisfies: the combined size respects
    /// the crate limit and `W` lies between its extremes, reached when all
    /// of Y ranks lowest resp. highest.
    pub open spec fn wf(&self) -> bool {
        &&& self.n_x + self.n_y <= MAX_TOTAL_COUNT
        &&& self.n_y * (self.n_y + 1) <= self.w2
        &&& self.w2 <= self.n_y * (self.n_y + 1) + 2 * self.n_x * self.n_y
    }

    /// Twice the Mann-Whitney U statistic of sample Y:
    /// `2 * (W - n_y * (n_y + 1) / 2)`.
    pub open spec fn u_y2_spec(&self) -> int {
        self.w2 - self.n_y * (self.n_y + 1)
    }

    /// Twice the Mann-Whitney U statistic of sample X, the complement of
    /// sample Y's within `2 * n_x * n_y`.
    pub open spec fn u_x2_spec(&self) -> int {
        2 * self.n_x * self.n_y - self.u_y2_spec()
    }
}

} // verus!

verus! {

/// `(m - 1) * m * (m + 1)`, the tie-correction term of a cohort of `m`
/// tied observations.
fn tie_term_exec(m: u64) -> (t: u64)
    requires
        1 <= m <= MAX_TOTAL_COUNT,
    ensures
        t == tie_term(m as int),
{
    proof {
        assert((m - 1) * m <= u64::MAX && (m - 1) * m * (m + 1) <= u64::MAX) by (nonlinear_arith)
            requires
                1 <= m <= 1048576,
        ;
    }
    (m - 1) * m * (m + 1)
}

/// Whether the values of a grouped sample are strictly increasing.
fn groups_sorted_exec(g: &Vec<(i64, u64)>) -> (b: bool)
    ensures
        b == groups_strictly_sorted(g@),
{
    let mut k: usize = 1;
    while k < g.len()
        invariant
            k >= 1,
            forall|a: int, b: int| 0 <= a < b < k ==> g@[a].0 < g@[b].0,
        decreases g.len() - k,
    {
        if g[k - 1].0 >= g[k].0 {
            assert(!groups_strictly_sorted(g@));
            return false;
        }
        assert forall|a: int, b: int| 0 <= a < b < k + 1 implies g@[a].0 < g@[b].0 by {
            if b == k && a < k - 1 {
                assert(g@[a].0 < g@[k - 1].0);
            }
        }
        k = k + 1;
    }
    true
}

/// The tie-aware merge: walks both grouped samples in value order, assigns
/// shared midranks to each cohort, and accumulates sample sizes, the
/// doubled rank sum of sample Y, and the tie-correction term.
fn merge_ranks(gx: &Vec<(i64, u64)>, gy: &Vec<(i64, u64)>) -> (rs: RankSum)
    requires
        groups_strictly_sorted(gx@),
        groups_strictly_sorted(gy@),
        counts_positive(gx@),
        counts_positive(gy@),
        total_count(gx@) + total_count(gy@) <= MAX_TOTAL_COUNT,
    ensures
        rs.n_x == total_count(gx@),
        rs.n_y == total_count(gy@),
        rs.w2 == w2_spec(gx@, gy@),
        rs.ties_sum_prod == ties_spec(gx@, gy@),
        rs.wf(),
{
    let mut i: usize = 0;
    let mut j: usize = 0;
    let mut n_x_acc: u64 = 0;
    let mut n_y_acc: u64 = 0;
    let mut prev_rank: u64 = 0;
    let mut w2_acc: u64 = 0;
    let mut ties_acc: u64 = 0;
    proof {
        assert(gx@.take(0) =~= Seq::<(i64, u64)>::empty());
        assert(gy@.take(0) =~= Seq::<(i64, u64)>::empty());
    }
    while i < gx.len() || j < gy.len()
        invariant
            i <= gx@.len(),
            j <= gy@.len(),
            groups_strictly_sorted(gx@),
            groups_strictly_sorted(gy@),
            counts_positive(gx@),
            counts_positive(gy@),
            total_count(gx@) + total_count(gy@) <= MAX_TOTAL_COUNT,
            n_x_acc == total_count(gx@.take(i as int)),
            n_y_acc == total_count(gy@.take(j as int)),
            prev_rank == n_x_acc + n_y_acc,
            prev_rank <= MAX_TOTAL_COUNT,
            i < gx@.len() ==> (forall|t: int| 0 <= t < j ==> (#[trigger] gy@[t]).0 < gx@[i as int].0),
            j < gy@.len() ==> (forall|t: int| 0 <= t < i ==> (#[trigger] gx@[t]).0 < gy@[j as int].0),
            w2_acc == rank_sum2(gx@, gy@, gy@.take(j as int)),
            ties_acc == ties_one(gx@, gy@, gx@.take(i as int)) + ties_one(gx@, gy@, gy@.take(j as int)),
            w2_acc <= prev_rank * (prev_rank + 1),
            ties_acc <= 2 * prev_rank * prev_rank * prev_rank,
        decreases gx@.len() - i + gy@.len() - j,
    {
        proof {
            lemma_total_nonneg(gx@.take(i as int));
            lemma_total_nonneg(gy@.take(j as int));
        }
        if j == gy.len() || (i < gx.len() && gx[i].0 < gy[j].0) {
            // consume the head group of X alone
            let v = gx[i].0;
            let c = gx[i].1;
            proof {
                lemma_total_take_step(gx@, i as int);
                lemma_total_take_le(gx@, i + 1);
                lemma_total_take_le(gy@, j as int);
                assert(gx@[i as int].1 >= 1);
                assert(1 <= c <= MAX_TOTAL_COUNT);
                assert(prev_rank + c <= MAX_TOTAL_COUNT);
                assert(forall|t: int| 0 <= t < gy@.len() ==> (#[trigger] gy@[t]).0 != v) by {
                    assert(forall|t: int| j <= t < gy@.len() ==> (#[trigger] gy@[t]).0 >= gy@[j as int].0);
                }
                lemma_cnt_eq_one_at(gx@, v, i as int);
                lemma_cnt_eq_one_absent(gy@, v);
                lemma_ties_one_take_step(gx@, gy@, gx@, i as int);
                assert(cnt_eq(gx@, gy@, v) == c);
                assert(tie_term(c as int) >= 0) by (nonlinear_arith)
                    requires
                        c >= 1,
                ;
                assert(ties_acc + tie_term(c as int) <= 2 * (prev_rank + c) * (prev_rank + c) * (
                prev_rank + c)) by (nonlinear_arith)
                    requires
                        ties_acc <= 2 * prev_rank * prev_rank * prev_rank,
                        tie_term(c as int) == ((c - 1) * c) * (c + 1),
                        prev_rank >= 0,
                        c >= 1,
                ;
                assert(2 * (prev_rank + c) * (prev_rank + c) * (prev_rank + c) <= u64::MAX)
                    by (nonlinear_arith)
                    requires
                        0 <= prev_rank + c <= 1048576,
                ;
                assert(w2_acc <= (prev_rank + c) * (prev_rank + c + 1)) by (nonlinear_arith)
                    requires
                        w2_acc <= prev_rank * (prev_rank + 1),
                        prev_rank >= 0,
                        c >= 0,
                ;
            }
            ties_acc = ties_acc + tie_term_exec(c);
            prev_rank = prev_rank + c;
            n_x_acc = n_x_acc + c;
            i = i + 1;
            proof {
                assert(i < gx@.len() ==> (forall|t: int|
                    0 <= t < j ==> (#[trigger] gy@[t]).0 < gx@[i as int].0)) by {
                    if i < gx@.len() {
                        assert(gx@[i - 1].0 < gx@[i as int].0);
                    }
                }
            }
        } else if i == gx.len() || gy[j].0 < gx[i].0 {
            // consume the head group of Y alone
            let v = gy[j].0;
            let c = gy[j].1;
            proof {
                lemma_total_take_step(gy@, j as int);
                lemma_total_take_le(gy@, j + 1);
                lemma_total_take_le(gx@, i as int);
                assert(gy@[j as int].1 >= 1);
                assert(1 <= c <= MAX_TOTAL_COUNT);
                assert(prev_rank + c <= MAX_TOTAL_COUNT);
                assert(forall|t: int| 0 <= t < gx@.len() ==> (#[trigger] gx@[t]).0 != v) by {
                    assert(forall|t: int| i <= t < gx@.len() ==> (#[trigger] gx@[t]).0 >= gx@[i as int].0);
                }
                lemma_cnt_eq_one_at(gy@, v, j as int);
                lemma_cnt_eq_one_absent(gx@, v);
                lemma_cnt_lt_one_split(gy@, v, j as int);
                lemma_cnt_lt_one_split(gx@, v, i as int);
                lemma_rank_sum2_take_step(gx@, gy@, gy@, j as int);
                lemma_ties_one_take_step(gx@, gy@, gy@, j as int);
                assert(cnt_eq(gx@, gy@, v) == c);
                assert(cnt_lt(gx@, gy@, v) == prev_rank);
                assert(contrib2(gx@, gy@, v, c) == c * (2 * prev_rank + c + 1));
                assert(w2_acc + c * (2 * prev_rank + c + 1) <= (prev_rank + c) * (prev_rank + c
                    + 1)) by (nonlinear_arith)
                    requires
                        w2_acc <= prev_rank * (prev_rank + 1),
                        prev_rank >= 0,
                        c >= 1,
                ;
                assert((prev_rank + c) * (prev_rank + c + 1) <= u64::MAX) by (nonlinear_arith)
                    requires
                        0 <= prev_rank + c <= 1048576,
                ;
                assert(c * (2 * prev_rank + c + 1) >= 0) by (nonlinear_arith)
                    requires
                        prev_rank >= 0,
                        c >= 1,
                ;
                assert(tie_term(c as int) >= 0) by (nonlinear_arith)
                    requires
                        c >= 1,
                ;
                assert(ties_acc + tie_term(c as int) <= 2 * (prev_rank + c) * (prev_rank + c) * (
                prev_rank + c)) by (nonlinear_arith)
                    requires
                        ties_acc <= 2 * prev_rank * prev_rank * prev_rank,
                        tie_term(c as int) == ((c - 1) * c) * (c + 1),
                        prev_rank >= 0,
                        c >= 1,
                ;
                assert(2 * (prev_rank + c) * (prev_rank + c) * (prev_rank + c) <= u64::MAX)
                    by (nonlinear_arith)
                    requires
                        0 <= prev_rank + c <= 1048576,
                ;
            }
            w2_acc = w2_acc + c * (2 * prev_rank + c + 1);
            ties_acc = ties_acc + tie_term_exec(c);
            prev_rank = prev_rank + c;
            n_y_acc = n_y_acc + c;
            j = j + 1;
            proof {
                assert(j < gy@.len() ==> (forall|t: int|
                    0 <= t < i ==> (#[trigger] gx@[t]).0 < gy@[j as int].0)) by {
                    if j < gy@.len() {
                        assert(gy@[j - 1].0 < gy@[j as int].0);
                    }
                }
            }
        } else {
            // equal head values: consume both groups as one tied cohort
            let v = gx[i].0;
            let cx = gx[i].1;
            let cy = gy[j].1;
            proof {
                assert(gy@[j as int].0 == v);
                lemma_total_take_step(gx@, i as int);
                lemma_total_take_le(gx@, i + 1);
                lemma_total_take_step(gy@, j as int);
                lemma_total_take_le(gy@, j + 1);
                assert(gx@[i as int].1 >= 1);
                assert(gy@[j as int].1 >= 1);
                assert(total_count(gx@.take(i + 1)) + total_count(gy@.take(j + 1))
                    <= MAX_TOTAL_COUNT);
            }
            let m = cx + cy;
            proof {
                lemma_cnt_eq_one_at(gx@, v, i as int);
                lemma_cnt_eq_one_at(gy@, v, j as int);
                lemma_cnt_lt_one_split(gx@, v, i as int);
                lemma_cnt_lt_one_split(gy@, v, j as int);
                lemma_rank_sum2_take_step(gx@, gy@, gy@, j as int);
                lemma_ties_one_take_step(gx@, gy@, gx@, i as int);
                lemma_ties_one_take_step(gx@, gy@, gy@, j as int);
                assert(cnt_eq(gx@, gy@, v) == m);
                assert(cnt_lt(gx@, gy@, v) == prev_rank);
                assert(contrib2(gx@, gy@, v, cy) == cy * (2 * prev_rank + m + 1));
                assert(1 <= m <= MAX_TOTAL_COUNT);
                assert(prev_rank + m <= MAX_TOTAL_COUNT);
                assert(w2_acc + cy * (2 * prev_rank + m + 1) <= (prev_rank + m) * (prev_rank + m
                    + 1)) by (nonlinear_arith)
                    requires
                        w2_acc <= prev_rank * (prev_rank + 1),
                        prev_rank >= 0,
                        1 <= cy <= m,
                ;
                assert((prev_rank + m) * (prev_rank + m + 1) <= u64::MAX) by (nonlinear_arith)
                    requires
                        0 <= prev_rank + m <= 1048576,
                ;
                assert(cy * (2 * prev_rank + m + 1) >= 0) by (nonlinear_arith)
                    requires
                        prev_rank >= 0,
                        1 <= cy,
                        cy <= m,
                ;
                assert(tie_term(m as int) >= 0) by (nonlinear_arith)
                    requires
                        m >= 1,
                ;
                assert(ties_acc + tie_term(m as int) + tie_term(m as int) <= 2 * (prev_rank + m)
                    * (prev_rank + m) * (prev_rank + m)) by (nonlinear_arith)
                    requires
                        ties_acc <= 2 * prev_rank * prev_rank * prev_rank,
                        tie_term(m as int) == ((m - 1) * m) * (m + 1),
                        prev_rank >= 0,
                        m >= 1,
                ;
                assert(2 * (prev_rank + m) * (prev_rank + m) * (prev_rank + m) <= u64::MAX)
                    by (nonlinear_arith)
                    requires
                        0 <= prev_rank + m <= 1048576,
                ;
            }
            w2_acc = w2_acc + cy * (2 * prev_rank + m + 1);
            let t = tie_term_exec(m);
            ties_acc = ties_acc + t;
            ties_acc = ties_acc + t;
            prev_rank = prev_rank + m;
            n_x_acc = n_x_acc + cx;
            n_y_acc = n_y_acc + cy;
            i = i + 1;
            j = j + 1;
            proof {
                assert(i < gx@.len() ==> (forall|t2: int|
                    0 <= t2 < j ==> (#[trigger] gy@[t2]).0 < gx@[i as int].0)) by {
                    if i < gx@.len() {
                        assert(gx@[i - 1].0 < gx@[i as int].0);
                    }
                }
                assert(j < gy@.len() ==> (forall|t2: int|
                    0 <= t2 < i ==> (#[trigger] gx@[t2]).0 < gy@[j as int].0)) by {
                    if j < gy@.len() {
                        assert(gy@[j - 1].0 < gy@[j as int].0);
                    }
                }
            }
        }
    }
    proof {
        assert(gx@.take(i as int) =~= gx@);
        assert(gy@.take(j as int) =~= gy@);
        lemma_w2_bounds(gx@, gy@);
        lemma_total_nonneg(gx@);
        lemma_total_nonneg(gy@);
    }
    RankSum { n_x: n_x_acc, n_y: n_y_acc, w2: w2_acc, ties_sum_prod: ties_acc }
}

} // verus!

verus! {

impl RankSum {
    /// Builds the rank-sum statistics from two samples given as grouped
    /// `(value, count)` pairs, each pair covering `count` equal
    /// observations.
    ///
    /// Fails with [`StatsError::OrderingViolation`] exactly when the values
    /// of either input are not strictly increasing.
    pub fn from_iters_with_counts(itc_x: &Vec<(i64, u64)>, itc_y: &Vec<(i64, u64)>) -> (r:
        StatsResult<RankSum>)
        requires
            counts_positive(itc_x@),
            counts_positive(itc_y@),
            total_count(itc_x@) + total_count(itc_y@) <= MAX_TOTAL_COUNT,
        ensures
            match r {
                Ok(rs) => {
                    &&& groups_strictly_sorted(itc_x@)
                    &&& groups_strictly_sorted(itc_y@)
                    &&& rs.n_x == total_count(itc_x@)
                    &&& rs.n_y == total_count(itc_y@)
                    &&& rs.w2 == w2_spec(itc_x@, itc_y@)
                    &&& rs.ties_sum_prod == ties_spec(itc_x@, itc_y@)
                    &&& rank_sum_x2_spec(itc_x@, itc_y@) == (rs.n_x + rs.n_y) * (rs.n_x + rs.n_y
                        + 1) - rs.w2
                    &&& rs.wf()
                },
                Err(e) => {
                    &&& e == StatsError::OrderingViolation
                    &&& !(groups_strictly_sorted(itc_x@) && groups_strictly_sorted(itc_y@))
                },
            },
    {
        if !groups_sorted_exec(itc_x) || !groups_sorted_exec(itc_y) {
            return Err(StatsError::OrderingViolation);
        }
        let rs = merge_ranks(itc_x, itc_y);
        proof {
            // The internal sanity check of the merge: the discarded X-side
            // rank sum is determined by `w`, since all ranks add up to
            // n * (n + 1) / 2.
            lemma_rank_sum_complementarity(itc_x@, itc_y@);
        }
        Ok(rs)
    }

    /// Builds the rank-sum statistics from two samples of raw observations,
    /// consuming them; equal neighbors are grouped first.
    ///
    /// Fails with [`StatsError::OrderingViolation`] exactly when either
    /// sample is not in non-decreasing order.
    pub fn from_iters(x: Vec<i64>, y: Vec<i64>) -> (r: StatsResult<RankSum>)
        requires
            x@.len() + y@.len() <= MAX_TOTAL_COUNT,
        ensures
            match r {
                Ok(rs) => {
                    &&& non_decreasing(x@)
                    &&& non_decreasing(y@)
                    &&& rs.n_x == x@.len()
                    &&& rs.n_y == y@.len()
                    &&& rs.w2 == w2_spec(group_spec(x@), group_spec(y@))
                    &&& rs.ties_sum_prod == ties_spec(group_spec(x@), group_spec(y@))
                    &&& rs.wf()
                },
                Err(e) => {
                    &&& e == StatsError::OrderingViolation
                    &&& !(non_decreasing(x@) && non_decreasing(y@))
                },
            },
    {
        Self::from_slices(&x, &y)
    }

    /// Builds the rank-sum statistics from two samples of raw observations,
    /// grouping each sample's equal neighbors first.
    ///
    /// Fails with [`StatsError::OrderingViolation`] exactly when either
    /// sample is not in non-decreasing order.
    pub fn from_slices(x: &Vec<i64>, y: &Vec<i64>) -> (r: StatsResult<RankSum>)
        requires
            x@.len() + y@.len() <= MAX_TOTAL_COUNT,
        ensures
            match r {
                Ok(rs) => {
                    &&& non_decreasing(x@)
                    &&& non_decreasing(y@)
                    &&& rs.n_x == x@.len()
                    &&& rs.n_y == y@.len()
                    &&& rs.w2 == w2_spec(group_spec(x@), group_spec(y@))
                    &&& rs.ties_sum_prod == ties_spec(group_spec(x@), group_spec(y@))
                    &&& rank_sum_x2_spec(group_spec(x@), group_spec(y@)) == (rs.n_x + rs.n_y) * (
                    rs.n_x + rs.n_y + 1) - rs.w2
                    &&& rs.wf()
                },
                Err(e) => {
                    &&& e == StatsError::OrderingViolation
                    &&& !(non_decreasing(x@) && non_decreasing(y@))
                },
            },
    {
        let itc_x = iter_with_counts(x);
        let itc_y = iter_with_counts(y);
        proof {
            lemma_group_count_bounds(x@);
            lemma_group_count_bounds(y@);
            lemma_group_total(x@);
            lemma_group_total(y@);
            lemma_group_sorted_iff(x@);
            lemma_group_sorted_iff(y@);
        }
        Self::from_iters_with_counts(&itc_x, &itc_y)
    }

    /// Size of first sample (X).
    pub fn n_x(&self) -> (n: u64)
        ensures
            n == self.n_x,
    {
        self.n_x
    }

    /// Size of second sample (Y).
    pub fn n_y(&self) -> (n: u64)
        ensures
            n == self.n_y,
    {
        self.n_y
    }

    /// Wilcoxon rank sum `W` statistic: the sum of the midranks of sample Y
    /// within the combined ranking, returned as a half-integer.
    pub fn w(&self) -> (w: HalfInt)
        ensures
            w.halves == self.w2,
    {
        HalfInt { halves: self.w2 }
    }

    /// Mann-Whitney U statistic for the second sample (Y):
    /// `W - n_y * (n_y + 1) / 2`.
    pub fn mann_whitney_u_y(&self) -> (u: HalfInt)
        requires
            self.wf(),
        ensures
            u.halves == self.u_y2_spec(),
    {
        proof {
            assert(self.n_y * (self.n_y + 1) <= u64::MAX) by (nonlinear_arith)
                requires
                    self.n_y <= 1048576,
            ;
        }
        HalfInt { halves: self.w2 - self.n_y * (self.n_y + 1) }
    }

    /// Mann-Whitney U statistic for the first sample (X): the complement of
    /// sample Y's within `n_x * n_y`.
    pub fn mann_whitney_u_x(&self) -> (u: HalfInt)
        requires
            self.wf(),
        ensures
            u.halves == self.u_x2_spec(),
    {
        proof {
            assert(self.n_y * (self.n_y + 1) <= u64::MAX && 2 * self.n_x <= u64::MAX && 2
                * self.n_x * self.n_y <= u64::MAX) by (nonlinear_arith)
                requires
                    self.n_x <= 1048576,
                    self.n_y <= 1048576,
            ;
        }
        let u_y = self.w2 - self.n_y * (self.n_y + 1);
        HalfInt { halves: 2 * self.n_x * self.n_y - u_y }
    }

    /// The `W` value computed by `R`'s `wilcox.test` function, which is the
    /// Mann-Whitney U statistic for the first sample (X).
    pub fn r_w(&self) -> (u: HalfInt)
        requires
            self.wf(),
        ensures
            u.halves == self.u_x2_spec(),
    {
        self.mann_whitney_u_x()
    }

    /// Mann-Whitney U statistic: the smaller of the two samples' U values.
    pub fn mann_whitney_u(&self) -> (u: HalfInt)
        requires
            self.wf(),
        ensures
            u.halves == if self.u_x2_spec() <= self.u_y2_spec() {
                self.u_x2_spec()
            } else {
                self.u_y2_spec()
            },
    {
        let u_x = self.mann_whitney_u_x();
        let u_y = self.mann_whitney_u_y();
        if u_x.halves <= u_y.halves {
            u_x
        } else {
            u_y
        }
    }

    /// The exact building blocks of the z-score of the large-sample normal
    /// approximation, without continuity correction:
    /// `z = (num2 / 2) / sqrt(var_num / var_den)`.
    ///
    /// Fails with [`StatsError::EmptySample`] exactly when either sample is
    /// empty, and otherwise with [`StatsError::ExcessiveTies`] exactly when
    /// the tie-corrected null variance of `W` is zero or below, that is,
    /// when `ties_sum_prod >= (n + 1) * n * (n - 1)` for `n = n_x + n_y`.
    /// On all other inputs it succeeds.
    pub fn z(&self) -> (r: StatsResult<ZScore>)
        requires
            self.wf(),
        ensures
            ({
                let n = self.n_x + self.n_y;
                let tie_bound = (n + 1) * n * (n - 1);
                &&& (r is Ok <==> (self.n_x > 0 && self.n_y > 0 && self.ties_sum_prod < tie_bound))
                &&& match r {
                    Ok(zs) => {
                        &&& zs.num2 == self.n_y * (n + 1) - self.w2
                        &&& zs.var_num == self.n_x * self.n_y * (tie_bound - self.ties_sum_prod)
                        &&& zs.var_den == 12 * n * (n - 1)
                        &&& zs.wf()
                    },
                    Err(e) => {
                        &&& (e == StatsError::EmptySample <==> (self.n_x == 0 || self.n_y == 0))
                        &&& (e == StatsError::ExcessiveTies <==> (self.n_x > 0 && self.n_y > 0
                            && self.ties_sum_prod >= tie_bound))
                        &&& (e == StatsError::EmptySample || e == StatsError::ExcessiveTies)
                    },
                }
            }),
    {
        if self.n_x == 0 || self.n_y == 0 {
            return Err(StatsError::EmptySample);
        }
        let n = self.n_x + self.n_y;
        proof {
            assert(n >= 2);
            assert((n + 1) * n <= u64::MAX && (n + 1) * n * (n - 1) <= u64::MAX && 12 * n
                <= u64::MAX && 12 * n * (n - 1) <= u64::MAX && self.n_y * (n + 1) <= u64::MAX
                && self.n_y * (n + 1) < 0x8000000000000000 && self.w2 < 0x8000000000000000)
                by (nonlinear_arith)
                requires
                    2 <= n <= 1048576,
                    self.n_y >= 1,
                    self.n_x >= 1,
                    self.n_x + self.n_y == n,
                    self.w2 <= self.n_y * (self.n_y + 1) + 2 * self.n_x * self.n_y,
            ;
        }
        let tie_bound = (n + 1) * n * (n - 1);
        if self.ties_sum_prod >= tie_bound {
            return Err(StatsError::ExcessiveTies);
        }
        let delta = tie_bound - self.ties_sum_prod;
        proof {
            assert((self.n_x as u128) * (self.n_y as u128) <= u128::MAX && (self.n_x as u128) * (
            self.n_y as u128) * (delta as u128) <= u128::MAX && self.n_x * self.n_y * (delta
                as int) >= 1) by (nonlinear_arith)
                requires
                    1 <= self.n_x <= 1048576,
                    1 <= self.n_y <= 1048576,
                    1 <= delta <= u64::MAX,
            ;
        }
        let var_num = (self.n_x as u128) * (self.n_y as u128) * (delta as u128);
        let var_den = 12 * n * (n - 1);
        let num2 = (self.n_y * (n + 1)) as i64 - self.w2 as i64;
        proof {
            let nn = self.n_x + self.n_y;
            let bound = (nn + 1) * nn * (nn - 1);
            assert(tie_bound == bound);
            assert(delta == bound - self.ties_sum_prod);
            assert(num2 == self.n_y * (nn + 1) - self.w2);
            assert(var_num == self.n_x * self.n_y * (bound - self.ties_sum_prod));
            assert(var_den == 12 * nn * (nn - 1));
            assert(var_num >= 1);
            assert(var_den >= 1) by (nonlinear_arith)
                requires
                    var_den == 12 * nn * (nn - 1),
                    nn >= 2,
            ;
        }
        Ok(ZScore { num2, var_num, var_den })
    }
}

/// U complementarity: the two Mann-Whitney U statistics of a merge result
/// always add up to `n_x * n_y`, stated here over doubled values.
pub proof fn lemma_u_complementarity(rs: RankSum)
    requires
        rs.wf(),
    ensures
        rs.u_x2_spec() + rs.u_y2_spec() == 2 * rs.n_x * rs.n_y,
{
}

/// U bounds: each Mann-Whitney U statistic of a merge result lies between
/// `0` and `n_x * n_y`, stated here over doubled values.
pub proof fn lemma_u_bounds(rs: RankSum)
    requires
        rs.wf(),
    ensures
        0 <= rs.u_y2_spec() <= 2 * rs.n_x * rs.n_y,
        0 <= rs.u_x2_spec() <= 2 * rs.n_x * rs.n_y,
{
}

} // verus!
