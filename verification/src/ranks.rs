//! The mathematical model of tie-aware ranking over two grouped samples.
//!
//! A grouped sample is a sequence of `(value, count)` pairs with strictly
//! increasing values. Ranks are shared midranks: a cohort of `m` tied
//! observations preceded by `L` smaller observations occupies ranks
//! `L+1 .. L+m` and every member receives their average, `L + (m+1)/2`.
//! Since midranks are half-integers, all rank sums here are carried doubled:
//! an observation's doubled midrank is `2*L + m + 1`.

use vstd::prelude::*;

use crate::grouping::group_spec;
use crate::grouping::groups_strictly_sorted;
use crate::grouping::lemma_group_last;
use crate::grouping::total_count;

verus! {

/// The term a cohort of `m` tied observations adds to the tie-correction
/// accumulator each time one of the two samples takes part in it.
pub open spec fn tie_term(m: int) -> int {
    (m - 1) * m * (m + 1)
}

/// Number of observations of the grouped sample `g` with value equal to `v`.
pub open spec fn cnt_eq_one(g: Seq<(i64, u64)>, v: i64) -> int
    decreases g.len(),
{
    if g.len() == 0 {
        0
    } else {
        cnt_eq_one(g.drop_last(), v) + if g.last().0 == v {
            g.last().1 as int
        } else {
            0
        }
    }
}

/// Number of observations of the grouped sample `g` with value less than `v`.
pub open spec fn cnt_lt_one(g: Seq<(i64, u64)>, v: i64) -> int
    decreases g.len(),
{
    if g.len() == 0 {
        0
    } else {
        cnt_lt_one(g.drop_last(), v) + if g.last().0 < v {
            g.last().1 as int
        } else {
            0
        }
    }
}

/// Number of observations across both samples with value equal to `v`: the
/// size of the tied cohort at `v`.
pub open spec fn cnt_eq(gx: Seq<(i64, u64)>, gy: Seq<(i64, u64)>, v: i64) -> int {
    cnt_eq_one(gx, v) + cnt_eq_one(gy, v)
}

/// Number of observations across both samples with value less than `v`.
pub open spec fn cnt_lt(gx: Seq<(i64, u64)>, gy: Seq<(i64, u64)>, v: i64) -> int {
    cnt_lt_one(gx, v) + cnt_lt_one(gy, v)
}

/// Doubled rank-sum contribution of a group of `c` observations at value
/// `v`: each member's doubled midrank is twice the number of smaller
/// observations plus the cohort size plus one.
pub open spec fn contrib2(gx: Seq<(i64, u64)>, gy: Seq<(i64, u64)>, v: i64, c: u64) -> int {
    c * (2 * cnt_lt(gx, gy, v) + cnt_eq(gx, gy, v) + 1)
}

/// Doubled sum of the midranks, within the combined ranking of `gx` and
/// `gy`, of the observations listed by `side`.
pub open spec fn rank_sum2(
    gx: Seq<(i64, u64)>,
    gy: Seq<(i64, u64)>,
    side: Seq<(i64, u64)>,
) -> int
    decreases side.len(),
{
    if side.len() == 0 {
        0
    } else {
        rank_sum2(gx, gy, side.drop_last()) + contrib2(gx, gy, side.last().0, side.last().1)
    }
}

/// Tie-correction contribution of one side: every group of `side` adds the
/// tie term of the full cohort at its value. A value present in both
/// samples is therefore counted once per side.
pub open spec fn ties_one(gx: Seq<(i64, u64)>, gy: Seq<(i64, u64)>, side: Seq<(i64, u64)>) -> int
    decreases side.len(),
{
    if side.len() == 0 {
        0
    } else {
        ties_one(gx, gy, side.drop_last()) + tie_term(cnt_eq(gx, gy, side.last().0))
    }
}

/// Doubled Wilcoxon rank-sum statistic `W` of sample Y.
pub open spec fn w2_spec(gx: Seq<(i64, u64)>, gy: Seq<(i64, u64)>) -> int {
    rank_sum2(gx, gy, gy)
}

/// Doubled rank sum of sample X, the discarded counterpart of `W`.
pub open spec fn rank_sum_x2_spec(gx: Seq<(i64, u64)>, gy: Seq<(i64, u64)>) -> int {
    rank_sum2(gx, gy, gx)
}

/// The tie-correction accumulator over both samples.
pub open spec fn ties_spec(gx: Seq<(i64, u64)>, gy: Seq<(i64, u64)>) -> int {
    ties_one(gx, gy, gx) + ties_one(gx, gy, gy)
}

/// Every group describes at least one observation.
pub open spec fn counts_positive(g: Seq<(i64, u64)>) -> bool {
    forall|t: int| 0 <= t < g.len() ==> (#[trigger] g[t]).1 >= 1
}

/// A grouped sample never counts a negative number of observations.
pub proof fn lemma_total_nonneg(g: Seq<(i64, u64)>)
    ensures
        total_count(g) >= 0,
    decreases g.len(),
{
    if g.len() > 0 {
        lemma_total_nonneg(g.drop_last());
    }
}

/// A prefix of a grouped sample covers one more group at a time.
pub proof fn lemma_total_take_step(g: Seq<(i64, u64)>, k: int)
    requires
        0 <= k < g.len(),
    ensures
        total_count(g.take(k + 1)) == total_count(g.take(k)) + g[k].1,
{
    assert(g.take(k + 1).drop_last() =~= g.take(k));
}

/// A prefix of a grouped sample covers no more observations than the whole.
pub proof fn lemma_total_take_le(g: Seq<(i64, u64)>, k: int)
    requires
        0 <= k <= g.len(),
    ensures
        total_count(g.take(k)) <= total_count(g),
    decreases g.len(),
{
    if k == g.len() {
        assert(g.take(k) =~= g);
    } else {
        assert(g.take(k) =~= g.drop_last().take(k));
        lemma_total_take_le(g.drop_last(), k);
    }
}

/// Counting observations equal to or below a value stays within the sample
/// size, and neither count is negative.
pub proof fn lemma_cnt_one_bounds(g: Seq<(i64, u64)>, v: i64)
    ensures
        0 <= cnt_eq_one(g, v),
        0 <= cnt_lt_one(g, v),
        cnt_lt_one(g, v) + cnt_eq_one(g, v) <= total_count(g),
    decreases g.len(),
{
    if g.len() > 0 {
        lemma_cnt_one_bounds(g.drop_last(), v);
    }
}

/// In a sample with no group at value `v`, no observation equals `v`.
pub proof fn lemma_cnt_eq_one_absent(g: Seq<(i64, u64)>, v: i64)
    requires
        forall|t: int| 0 <= t < g.len() ==> (#[trigger] g[t]).0 != v,
    ensures
        cnt_eq_one(g, v) == 0,
    decreases g.len(),
{
    if g.len() > 0 {
        lemma_cnt_eq_one_absent(g.drop_last(), v);
    }
}

/// In a strictly sorted sample, the group at value `v` accounts for every
/// observation equal to `v`.
pub proof fn lemma_cnt_eq_one_at(g: Seq<(i64, u64)>, v: i64, k: int)
    requires
        groups_strictly_sorted(g),
        0 <= k < g.len(),
        g[k].0 == v,
    ensures
        cnt_eq_one(g, v) == g[k].1,
    decreases g.len(),
{
    if k == g.len() - 1 {
        assert(forall|t: int| 0 <= t < g.drop_last().len() ==> (#[trigger] g.drop_last()[t]).0 != v);
        lemma_cnt_eq_one_absent(g.drop_last(), v);
    } else {
        assert(g.last().0 != v);
        lemma_cnt_eq_one_at(g.drop_last(), v, k);
    }
}

/// If the first `k` groups are below `v` and the rest are not, the
/// observations below `v` are exactly those of the first `k` groups.
pub proof fn lemma_cnt_lt_one_split(g: Seq<(i64, u64)>, v: i64, k: int)
    requires
        0 <= k <= g.len(),
        forall|t: int| 0 <= t < k ==> (#[trigger] g[t]).0 < v,
        forall|t: int| k <= t < g.len() ==> (#[trigger] g[t]).0 >= v,
    ensures
        cnt_lt_one(g, v) == total_count(g.take(k)),
    decreases g.len(),
{
    if g.len() == 0 {
        assert(g.take(k) =~= g);
    } else if k == g.len() {
        lemma_cnt_lt_one_split(g.drop_last(), v, k - 1);
        assert(g.drop_last().take(k - 1) =~= g.take(k - 1));
        assert(g.take(k) =~= g);
        assert(g.take(k - 1) =~= g.drop_last());
    } else {
        lemma_cnt_lt_one_split(g.drop_last(), v, k);
        assert(g.drop_last().take(k) =~= g.take(k));
    }
}

/// One step of the doubled rank sum over a growing prefix of `side`.
pub proof fn lemma_rank_sum2_take_step(
    gx: Seq<(i64, u64)>,
    gy: Seq<(i64, u64)>,
    side: Seq<(i64, u64)>,
    k: int,
)
    requires
        0 <= k < side.len(),
    ensures
        rank_sum2(gx, gy, side.take(k + 1)) == rank_sum2(gx, gy, side.take(k)) + contrib2(
            gx,
            gy,
            side[k].0,
            side[k].1,
        ),
{
    assert(side.take(k + 1).drop_last() =~= side.take(k));
}

/// One step of the tie-correction sum over a growing prefix of `side`.
pub proof fn lemma_ties_one_take_step(
    gx: Seq<(i64, u64)>,
    gy: Seq<(i64, u64)>,
    side: Seq<(i64, u64)>,
    k: int,
)
    requires
        0 <= k < side.len(),
    ensures
        ties_one(gx, gy, side.take(k + 1)) == ties_one(gx, gy, side.take(k)) + tie_term(
            cnt_eq(gx, gy, side[k].0),
        ),
{
    assert(side.take(k + 1).drop_last() =~= side.take(k));
}

} // verus!

verus! {

/// Groups above every value listed in `side` do not change `side`'s ranks:
/// dropping the top group of X leaves the doubled rank sum untouched.
pub proof fn lemma_rank_sum2_drop_x(gx: Seq<(i64, u64)>, gy: Seq<(i64, u64)>, side: Seq<(i64, u64)>)
    requires
        gx.len() > 0,
        forall|t: int| 0 <= t < side.len() ==> (#[trigger] side[t]).0 < gx.last().0,
    ensures
        rank_sum2(gx, gy, side) == rank_sum2(gx.drop_last(), gy, side),
    decreases side.len(),
{
    if side.len() > 0 {
        lemma_rank_sum2_drop_x(gx, gy, side.drop_last());
        let v = side.last().0;
        assert(v < gx.last().0);
        assert(cnt_lt_one(gx, v) == cnt_lt_one(gx.drop_last(), v));
        assert(cnt_eq_one(gx, v) == cnt_eq_one(gx.drop_last(), v));
    }
}

/// Groups above every value listed in `side` do not change `side`'s ranks:
/// dropping the top group of Y leaves the doubled rank sum untouched.
pub proof fn lemma_rank_sum2_drop_y(gx: Seq<(i64, u64)>, gy: Seq<(i64, u64)>, side: Seq<(i64, u64)>)
    requires
        gy.len() > 0,
        forall|t: int| 0 <= t < side.len() ==> (#[trigger] side[t]).0 < gy.last().0,
    ensures
        rank_sum2(gx, gy, side) == rank_sum2(gx, gy.drop_last(), side),
    decreases side.len(),
{
    if side.len() > 0 {
        lemma_rank_sum2_drop_y(gx, gy, side.drop_last());
        let v = side.last().0;
        assert(cnt_lt_one(gy, v) == cnt_lt_one(gy.drop_last(), v));
        assert(cnt_eq_one(gy, v) == cnt_eq_one(gy.drop_last(), v));
    }
}

/// Rank-sum complementarity: over the combined ranking of `n` observations,
/// the doubled rank sums of the two samples always add up to `n * (n + 1)`,
/// twice the sum `1 + 2 + ... + n` of all ranks.
pub proof fn lemma_rank_sum_complementarity(gx: Seq<(i64, u64)>, gy: Seq<(i64, u64)>)
    requires
        groups_strictly_sorted(gx),
        groups_strictly_sorted(gy),
    ensures
        rank_sum_x2_spec(gx, gy) + w2_spec(gx, gy) == (total_count(gx) + total_count(gy)) * (
        total_count(gx) + total_count(gy) + 1),
    decreases gx.len() + gy.len(),
{
    let nn = total_count(gx) + total_count(gy);
    if gx.len() == 0 && gy.len() == 0 {
        assert(total_count(gx) == 0);
        assert(rank_sum_x2_spec(gx, gy) == 0);
        assert(w2_spec(gx, gy) == 0);
        assert(rank_sum_x2_spec(gx, gy) + w2_spec(gx, gy) == nn * (nn + 1));
    } else if gy.len() == 0 || (gx.len() > 0 && gx.last().0 > gy.last().0) {
        let gx0 = gx.drop_last();
        let v = gx.last().0;
        let c = gx.last().1;
        assert(forall|t: int| 0 <= t < gx0.len() ==> (#[trigger] gx0[t]).0 < v);
        assert(forall|t: int| 0 <= t < gy.len() ==> (#[trigger] gy[t]).0 < v);
        lemma_rank_sum2_drop_x(gx, gy, gx0);
        lemma_rank_sum2_drop_x(gx, gy, gy);
        lemma_cnt_eq_one_at(gx, v, gx.len() - 1);
        lemma_cnt_eq_one_absent(gy, v);
        lemma_cnt_lt_one_split(gx, v, gx.len() - 1);
        assert(gx.take(gx.len() - 1) =~= gx0);
        lemma_cnt_lt_one_split(gy, v, gy.len() as int);
        assert(gy.take(gy.len() as int) =~= gy);
        lemma_rank_sum_complementarity(gx0, gy);
        let n0 = total_count(gx0) + total_count(gy);
        assert(total_count(gx) == total_count(gx0) + c);
        assert(contrib2(gx, gy, v, c) == c * (2 * n0 + c + 1));
        assert(n0 * (n0 + 1) + c * (2 * n0 + c + 1) == (n0 + c) * (n0 + c + 1)) by (nonlinear_arith);
        assert(rank_sum_x2_spec(gx, gy) == rank_sum2(gx0, gy, gx0) + contrib2(gx, gy, v, c));
        assert(w2_spec(gx, gy) == rank_sum2(gx0, gy, gy));
        assert(rank_sum_x2_spec(gx, gy) + w2_spec(gx, gy) == nn * (nn + 1));
    } else if gx.len() == 0 || (gy.len() > 0 && gy.last().0 > gx.last().0) {
        let gy0 = gy.drop_last();
        let v = gy.last().0;
        let c = gy.last().1;
        assert(forall|t: int| 0 <= t < gy0.len() ==> (#[trigger] gy0[t]).0 < v);
        assert(forall|t: int| 0 <= t < gx.len() ==> (#[trigger] gx[t]).0 < v);
        lemma_rank_sum2_drop_y(gx, gy, gy0);
        lemma_rank_sum2_drop_y(gx, gy, gx);
        lemma_cnt_eq_one_at(gy, v, gy.len() - 1);
        lemma_cnt_eq_one_absent(gx, v);
        lemma_cnt_lt_one_split(gy, v, gy.len() - 1);
        assert(gy.take(gy.len() - 1) =~= gy0);
        lemma_cnt_lt_one_split(gx, v, gx.len() as int);
        assert(gx.take(gx.len() as int) =~= gx);
        lemma_rank_sum_complementarity(gx, gy0);
        let n0 = total_count(gx) + total_count(gy0);
        assert(total_count(gy) == total_count(gy0) + c);
        assert(contrib2(gx, gy, v, c) == c * (2 * n0 + c + 1));
        assert(n0 * (n0 + 1) + c * (2 * n0 + c + 1) == (n0 + c) * (n0 + c + 1)) by (nonlinear_arith);
        assert(w2_spec(gx, gy) == rank_sum2(gx, gy0, gy0) + contrib2(gx, gy, v, c));
        assert(rank_sum_x2_spec(gx, gy) == rank_sum2(gx, gy0, gx));
        assert(rank_sum_x2_spec(gx, gy) + w2_spec(gx, gy) == nn * (nn + 1));
    } else {
        let gx0 = gx.drop_last();
        let gy0 = gy.drop_last();
        let v = gx.last().0;
        let cx = gx.last().1;
        let cy = gy.last().1;
        let m = cx + cy;
        assert(gy.last().0 == v);
        assert(forall|t: int| 0 <= t < gx0.len() ==> (#[trigger] gx0[t]).0 < v);
        assert(forall|t: int| 0 <= t < gy0.len() ==> (#[trigger] gy0[t]).0 < v);
        lemma_rank_sum2_drop_x(gx, gy, gx0);
        lemma_rank_sum2_drop_y(gx0, gy, gx0);
        lemma_rank_sum2_drop_x(gx, gy, gy0);
        lemma_rank_sum2_drop_y(gx0, gy, gy0);
        lemma_cnt_eq_one_at(gx, v, gx.len() - 1);
        lemma_cnt_eq_one_at(gy, v, gy.len() - 1);
        lemma_cnt_lt_one_split(gx, v, gx.len() - 1);
        assert(gx.take(gx.len() - 1) =~= gx0);
        lemma_cnt_lt_one_split(gy, v, gy.len() - 1);
        assert(gy.take(gy.len() - 1) =~= gy0);
        lemma_rank_sum_complementarity(gx0, gy0);
        let n0 = total_count(gx0) + total_count(gy0);
        assert(total_count(gx) == total_count(gx0) + cx);
        assert(total_count(gy) == total_count(gy0) + cy);
        assert(contrib2(gx, gy, v, cx) == cx * (2 * n0 + m + 1));
        assert(contrib2(gx, gy, v, cy) == cy * (2 * n0 + m + 1));
        assert(n0 * (n0 + 1) + cx * (2 * n0 + m + 1) + cy * (2 * n0 + m + 1) == (n0 + m) * (n0 + m
            + 1)) by (nonlinear_arith)
            requires
                m == cx + cy,
        ;
        assert(rank_sum_x2_spec(gx, gy) == rank_sum2(gx0, gy0, gx0) + contrib2(gx, gy, v, cx));
        assert(w2_spec(gx, gy) == rank_sum2(gx0, gy0, gy0) + contrib2(gx, gy, v, cy));
        assert(rank_sum_x2_spec(gx, gy) + w2_spec(gx, gy) == nn * (nn + 1));
    }
}

/// The doubled rank sum of sample Y stays between its value when every Y
/// observation ranks lowest and its value when every Y observation ranks
/// highest. These are exactly the bounds `0 <= U <= n_x * n_y` on the
/// Mann-Whitney statistic, in doubled rank-sum form.
pub proof fn lemma_w2_bounds(gx: Seq<(i64, u64)>, gy: Seq<(i64, u64)>)
    requires
        groups_strictly_sorted(gx),
        groups_strictly_sorted(gy),
    ensures
        total_count(gy) * (total_count(gy) + 1) <= w2_spec(gx, gy),
        w2_spec(gx, gy) <= total_count(gy) * (total_count(gy) + 1) + 2 * total_count(gx)
            * total_count(gy),
    decreases gy.len(),
{
    let tx = total_count(gx);
    lemma_total_nonneg(gx);
    if gy.len() == 0 {
    } else {
        let gy0 = gy.drop_last();
        let v = gy.last().0;
        let c = gy.last().1;
        let ty0 = total_count(gy0);
        assert(forall|t: int| 0 <= t < gy0.len() ==> (#[trigger] gy0[t]).0 < v);
        lemma_rank_sum2_drop_y(gx, gy, gy0);
        lemma_w2_bounds(gx, gy0);
        lemma_total_nonneg(gy0);
        lemma_cnt_eq_one_at(gy, v, gy.len() - 1);
        lemma_cnt_lt_one_split(gy, v, gy.len() - 1);
        assert(gy.take(gy.len() - 1) =~= gy0);
        lemma_cnt_one_bounds(gx, v);
        let lx = cnt_lt_one(gx, v);
        let ex = cnt_eq_one(gx, v);
        assert(contrib2(gx, gy, v, c) == c * (2 * (lx + ty0) + (ex + c) + 1));
        assert(c * (2 * ty0 + c + 1) <= c * (2 * (lx + ty0) + (ex + c) + 1)) by (nonlinear_arith)
            requires
                0 <= lx,
                0 <= ex,
                c >= 0,
        ;
        assert(c * (2 * (lx + ty0) + (ex + c) + 1) <= c * (2 * tx + 2 * ty0 + c + 1))
            by (nonlinear_arith)
            requires
                0 <= ex,
                lx + ex <= tx,
                c >= 0,
        ;
        assert(ty0 * (ty0 + 1) + c * (2 * ty0 + c + 1) == (ty0 + c) * (ty0 + c + 1))
            by (nonlinear_arith);
        assert(ty0 * (ty0 + 1) + 2 * tx * ty0 + c * (2 * tx + 2 * ty0 + c + 1) == (ty0 + c) * (ty0
            + c + 1) + 2 * tx * (ty0 + c)) by (nonlinear_arith);
        assert(total_count(gy) == ty0 + c);
    }
}

} // verus!

verus! {

/// The sequence of observations with every value raised by `d`.
pub open spec fn shift_values(s: Seq<i64>, d: i64) -> Seq<i64> {
    s.map(|t: int, v: i64| (v + d) as i64)
}

/// The grouped sample with every value raised by `d`, counts unchanged.
pub open spec fn shift_groups(g: Seq<(i64, u64)>, d: i64) -> Seq<(i64, u64)> {
    g.map(|t: int, p: (i64, u64)| (((p.0 + d) as i64), p.1))
}

/// Raising every value by `d` keeps each raised value within `i64`.
pub open spec fn values_shiftable(s: Seq<i64>, d: i64) -> bool {
    forall|t: int| 0 <= t < s.len() ==> i64::MIN <= #[trigger] s[t] + d <= i64::MAX
}

/// Raising every group value by `d` keeps each raised value within `i64`.
pub open spec fn groups_shiftable(g: Seq<(i64, u64)>, d: i64) -> bool {
    forall|t: int| 0 <= t < g.len() ==> i64::MIN <= (#[trigger] g[t]).0 + d <= i64::MAX
}

/// Everything at or below a value lies below any larger value.
pub proof fn lemma_cnt_lt_le_next(g: Seq<(i64, u64)>, v: i64, v2: i64)
    requires
        v < v2,
    ensures
        cnt_lt_one(g, v) + cnt_eq_one(g, v) <= cnt_lt_one(g, v2),
    decreases g.len(),
{
    if g.len() > 0 {
        lemma_cnt_lt_le_next(g.drop_last(), v, v2);
    }
}

/// Raising a grouped sample and the probed value by the same amount leaves
/// the below-`v` and at-`v` observation counts unchanged.
pub proof fn lemma_cnt_shift(g: Seq<(i64, u64)>, v: i64, d: i64)
    requires
        groups_shiftable(g, d),
        i64::MIN <= v + d <= i64::MAX,
    ensures
        cnt_lt_one(shift_groups(g, d), (v + d) as i64) == cnt_lt_one(g, v),
        cnt_eq_one(shift_groups(g, d), (v + d) as i64) == cnt_eq_one(g, v),
    decreases g.len(),
{
    if g.len() > 0 {
        let g0 = g.drop_last();
        lemma_cnt_shift(g0, v, d);
        assert(shift_groups(g, d).drop_last() =~= shift_groups(g0, d));
        assert(shift_groups(g, d).last() == (((g.last().0 + d) as i64), g.last().1));
    }
}

/// Raising sample Y (and with it the probed side) by a positive amount
/// never lowers a doubled rank sum taken over Y's groups: each raised value
/// ranks above at least as many observations as before.
proof fn lemma_rank_sum2_shift_ge(
    gx: Seq<(i64, u64)>,
    gy: Seq<(i64, u64)>,
    side: Seq<(i64, u64)>,
    d: i64,
)
    requires
        d >= 1,
        groups_shiftable(gy, d),
        groups_shiftable(side, d),
    ensures
        rank_sum2(gx, shift_groups(gy, d), shift_groups(side, d)) >= rank_sum2(gx, gy, side),
    decreases side.len(),
{
    if side.len() > 0 {
        let side0 = side.drop_last();
        lemma_rank_sum2_shift_ge(gx, gy, side0, d);
        assert(shift_groups(side, d).drop_last() =~= shift_groups(side0, d));
        let v = side.last().0;
        let c = side.last().1;
        let v2 = (v + d) as i64;
        assert(shift_groups(side, d).last() == (v2, c));
        lemma_cnt_shift(gy, v, d);
        lemma_cnt_lt_le_next(gx, v, v2);
        lemma_cnt_one_bounds(gx, v);
        lemma_cnt_one_bounds(gx, v2);
        let lo = 2 * cnt_lt(gx, gy, v) + cnt_eq(gx, gy, v) + 1;
        let hi = 2 * cnt_lt(gx, shift_groups(gy, d), v2) + cnt_eq(gx, shift_groups(gy, d), v2)
            + 1;
        assert(hi >= lo);
        assert(c * hi >= c * lo) by (nonlinear_arith)
            requires
                hi >= lo,
                c >= 0,
        ;
    }
}

/// Grouping commutes with raising every observation by `d`: runs of equal
/// values stay runs of equal values.
pub proof fn lemma_group_shift(s: Seq<i64>, d: i64)
    requires
        values_shiftable(s, d),
    ensures
        group_spec(shift_values(s, d)) == shift_groups(group_spec(s), d),
    decreases s.len(),
{
    if s.len() > 0 {
        let s0 = s.drop_last();
        let g0 = group_spec(s0);
        assert(forall|t: int| 0 <= t < s0.len() ==> #[trigger] s0[t] == s[t]);
        lemma_group_shift(s0, d);
        lemma_group_values_shiftable(s0, d);
        assert(shift_values(s, d).drop_last() =~= shift_values(s0, d));
        assert(shift_values(s, d).last() == (s.last() + d) as i64);
        assert(forall|t: int|
            0 <= t < g0.len() ==> #[trigger] shift_groups(g0, d)[t] == ((((g0[t].0 + d)
                as i64)), g0[t].1));
        if g0.len() > 0 && g0.last().0 == s.last() {
            let k = g0.len() - 1;
            let c2 = (g0.last().1 + 1) as u64;
            assert(shift_groups(g0, d).last().0 == (s.last() + d) as i64);
            assert(shift_groups(g0, d).last().1 == g0.last().1);
            assert(group_spec(s) == g0.update(k, (s.last(), c2)));
            assert(group_spec(shift_values(s, d)) == shift_groups(g0, d).update(
                k,
                (((s.last() + d) as i64), c2),
            ));
            let gu = g0.update(k, (s.last(), c2));
            assert(forall|t: int|
                0 <= t < gu.len() ==> #[trigger] shift_groups(gu, d)[t] == ((((gu[t].0 + d)
                    as i64)), gu[t].1));
            assert(shift_groups(g0, d).update(k, (((s.last() + d) as i64), c2)) =~= shift_groups(
                gu,
                d,
            ));
            assert(group_spec(shift_values(s, d)) == shift_groups(group_spec(s), d));
        } else {
            if g0.len() > 0 {
                // The raised values stay within range, so distinct values
                // stay distinct after the shift.
                lemma_group_last(s0);
                assert(g0.last().0 == s0.last());
                assert(i64::MIN <= g0.last().0 + d <= i64::MAX);
                assert(((g0.last().0 + d) as i64) != ((s.last() + d) as i64));
            }
            let gp = g0.push((s.last(), 1u64));
            assert(group_spec(s) == gp);
            assert(group_spec(shift_values(s, d)) == shift_groups(g0, d).push(
                (((s.last() + d) as i64), 1u64),
            ));
            assert(forall|t: int|
                0 <= t < gp.len() ==> #[trigger] shift_groups(gp, d)[t] == ((((gp[t].0 + d)
                    as i64)), gp[t].1));
            assert(shift_groups(g0, d).push((((s.last() + d) as i64), 1u64)) =~= shift_groups(
                gp,
                d,
            ));
            assert(group_spec(shift_values(s, d)) == shift_groups(group_spec(s), d));
        }
    } else {
        assert(shift_values(s, d) =~= Seq::<i64>::empty());
        assert(shift_groups(group_spec(s), d) =~= Seq::<(i64, u64)>::empty());
    }
}

/// The values of a run-length grouping all occur in the source sequence,
/// so a shift that keeps the source in range keeps the grouping in range.
pub proof fn lemma_group_values_shiftable(s: Seq<i64>, d: i64)
    requires
        values_shiftable(s, d),
    ensures
        groups_shiftable(group_spec(s), d),
    decreases s.len(),
{
    if s.len() > 0 {
        let s0 = s.drop_last();
        let g0 = group_spec(s0);
        let g = group_spec(s);
        lemma_group_values_shiftable(s0, d);
        if g0.len() > 0 && g0.last().0 == s.last() {
            assert(forall|t: int| 0 <= t < g.len() ==> (#[trigger] g[t]).0 == g0[t].0);
        } else {
            assert(forall|t: int| 0 <= t < g.len() - 1 ==> (#[trigger] g[t]).0 == g0[t].0);
            assert(g.last().0 == s.last());
        }
    }
}

/// Shift monotonicity: raising every observation of sample Y by the same
/// positive amount never lowers the rank-sum statistic `W`, and therefore
/// never raises the z-score numerator `E0 - W`. The increase need not be
/// strict: a shift small enough to cross no observation of sample X leaves
/// every rank unchanged.
pub proof fn lemma_w_shift_monotone(x: Seq<i64>, y: Seq<i64>, d: i64)
    requires
        d >= 1,
        values_shiftable(y, d),
    ensures
        w2_spec(group_spec(x), group_spec(shift_values(y, d))) >= w2_spec(
            group_spec(x),
            group_spec(y),
        ),
{
    lemma_group_shift(y, d);
    lemma_group_values_shiftable(y, d);
    lemma_rank_sum2_shift_ge(group_spec(x), group_spec(y), group_spec(y), d);
}

} // verus!
