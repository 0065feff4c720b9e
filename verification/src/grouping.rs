use vstd::prelude::*;

verus! {

/// Run-length grouping of a sequence: consecutive equal values are collapsed
/// into a `(value, count)` pair, in order of first appearance.
pub open spec fn group_spec(s: Seq<i64>) -> Seq<(i64, u64)>
    decreases s.len(),
{
    if s.len() == 0 {
        Seq::empty()
    } else {
        let g = group_spec(s.drop_last());
        let v = s.last();
        if g.len() > 0 && g.last().0 == v {
            g.update(g.len() - 1, (v, (g.last().1 + 1) as u64))
        } else {
            g.push((v, 1u64))
        }
    }
}

/// Total number of underlying observations described by a grouped sequence.
pub open spec fn total_count(g: Seq<(i64, u64)>) -> int
    decreases g.len(),
{
    if g.len() == 0 {
        0
    } else {
        total_count(g.drop_last()) + g.last().1
    }
}

/// The values of a grouped sequence are strictly increasing, which is what
/// "sorted and grouped" means for the rank-sum merge.
pub open spec fn groups_strictly_sorted(g: Seq<(i64, u64)>) -> bool {
    forall|a: int, b: int| 0 <= a < b < g.len() ==> g[a].0 < g[b].0
}

/// The raw observations are in non-decreasing order.
pub open spec fn non_decreasing(s: Seq<i64>) -> bool {
    forall|a: int, b: int| 0 <= a <= b < s.len() ==> s[a] <= s[b]
}

/// Every group of a run-length grouping covers at least one and at most
/// `s.len()` observations.
pub proof fn lemma_group_count_bounds(s: Seq<i64>)
    requires
        s.len() <= u64::MAX,
    ensures
        forall|j: int| 0 <= j < group_spec(s).len() ==> 1 <= (#[trigger] group_spec(s)[j]).1 <= s.len(),
    decreases s.len(),
{
    if s.len() > 0 {
        let s0 = s.drop_last();
        let g0 = group_spec(s0);
        let g = group_spec(s);
        lemma_group_count_bounds(s0);
        if g0.len() > 0 && g0.last().0 == s.last() {
            assert(g == g0.update(g0.len() - 1, (s.last(), (g0.last().1 + 1) as u64)));
            assert(g0.last().1 + 1 <= s.len());
            assert(forall|j: int| 0 <= j < g.len() - 1 ==> g[j] == g0[j]);
        } else {
            assert(g == g0.push((s.last(), 1u64)));
            assert(forall|j: int| 0 <= j < g.len() - 1 ==> g[j] == g0[j]);
        }
    }
}

/// Grouping neither loses nor invents observations: the group counts add up
/// to the length of the source sequence.
pub proof fn lemma_group_total(s: Seq<i64>)
    requires
        s.len() <= u64::MAX,
    ensures
        total_count(group_spec(s)) == s.len(),
    decreases s.len(),
{
    if s.len() > 0 {
        let s0 = s.drop_last();
        let g0 = group_spec(s0);
        let g = group_spec(s);
        lemma_group_total(s0);
        lemma_group_count_bounds(s0);
        if g0.len() > 0 && g0.last().0 == s.last() {
            assert(g0.last().1 + 1 <= s.len());
            assert(g.last().1 == g0.last().1 + 1);
            assert(g.drop_last() =~= g0.drop_last());
            assert(total_count(g) == total_count(g.drop_last()) + g.last().1);
            assert(total_count(g0) == total_count(g0.drop_last()) + g0.last().1);
        } else {
            assert(g.drop_last() =~= g0);
            assert(total_count(g) == total_count(g0) + 1);
        }
    }
}

/// Transforms a sequence of values into the sequence of value-count pairs
/// that collapses each run of consecutive equal values, as described by
/// [`group_spec`].
pub fn iter_with_counts(source: &Vec<i64>) -> (r: Vec<(i64, u64)>)
    ensures
        r@ == group_spec(source@),
{
    let mut r: Vec<(i64, u64)> = Vec::new();
    let mut i: usize = 0;
    while i < source.len()
        invariant
            i <= source.len(),
            r@ == group_spec(source@.take(i as int)),
        decreases source.len() - i,
    {
        let v = source[i];
        proof {
            assert(source@.take(i + 1).drop_last() =~= source@.take(i as int));
            assert(source@.take(i + 1).last() == source@[i as int]);
            lemma_group_count_bounds(source@.take(i as int));
        }
        let n = r.len();
        if n > 0 && r[n - 1].0 == v {
            let c = r[n - 1].1;
            r.set(n - 1, (v, c + 1));
        } else {
            r.push((v, 1));
        }
        proof {
            assert(r@ =~= group_spec(source@.take(i + 1)));
        }
        i = i + 1;
    }
    proof {
        assert(source@.take(source@.len() as int) =~= source@);
    }
    r
}

/// A restartable cursor over a sequence of observations that yields one
/// `(value, count)` pair per run of consecutive equal values.
pub struct IterWithCounts {
    /// The underlying observations.
    pub source: Vec<i64>,
    /// Index of the first observation not yet consumed.
    pub pos: usize,
}

impl IterWithCounts {
    /// Wraps `source`, positioned before its first observation.
    pub fn new(source: Vec<i64>) -> (it: IterWithCounts)
        ensures
            it.source@ == source@,
            it.pos == 0,
    {
        IterWithCounts { source, pos: 0 }
    }

    /// Consumes and returns the next run of consecutive equal values as a
    /// `(value, count)` pair, or `None` once the source is exhausted.
    pub fn next(&mut self) -> (r: Option<(i64, u64)>)
        requires
            old(self).pos <= old(self).source@.len(),
        ensures
            final(self).source@ == old(self).source@,
            match r {
                None => {
                    &&& old(self).pos == old(self).source@.len()
                    &&& final(self).pos == old(self).pos
                },
                Some((v, c)) => {
                    &&& old(self).pos < old(self).source@.len()
                    &&& v == old(self).source@[old(self).pos as int]
                    &&& c == final(self).pos - old(self).pos
                    &&& old(self).pos < final(self).pos <= old(self).source@.len()
                    &&& forall|t: int|
                        old(self).pos <= t < final(self).pos ==> old(self).source@[t] == v
                    &&& (final(self).pos < old(self).source@.len()
                        ==> old(self).source@[final(self).pos as int] != v)
                },
            },
    {
        if self.pos >= self.source.len() {
            return None;
        }
        let v = self.source[self.pos];
        let start = self.pos;
        let mut end = self.pos + 1;
        while end < self.source.len() && self.source[end] == v
            invariant
                start < end <= self.source@.len(),
                v == self.source@[start as int],
                forall|t: int| start <= t < end ==> self.source@[t] == v,
            decreases self.source@.len() - end,
        {
            end = end + 1;
        }
        self.pos = end;
        Some((v, (end - start) as u64))
    }
}

} // verus!

verus! {

/// The last group of a non-empty grouping carries the last value of the
/// source sequence.
pub proof fn lemma_group_last(s: Seq<i64>)
    requires
        s.len() > 0,
    ensures
        group_spec(s).len() > 0,
        group_spec(s).last().0 == s.last(),
{
}

/// A sequence is non-decreasing exactly when its run-length grouping has
/// strictly increasing values.
pub proof fn lemma_group_sorted_iff(s: Seq<i64>)
    requires
        s.len() <= u64::MAX,
    ensures
        groups_strictly_sorted(group_spec(s)) <==> non_decreasing(s),
    decreases s.len(),
{
    if s.len() == 0 {
    } else if s.len() == 1 {
        assert(group_spec(s) == group_spec(s.drop_last()).push((s.last(), 1u64)));
    } else {
        let s0 = s.drop_last();
        let g0 = group_spec(s0);
        let g = group_spec(s);
        let v = s.last();
        lemma_group_sorted_iff(s0);
        lemma_group_last(s0);
        lemma_group_count_bounds(s0);
        if g0.last().0 == v {
            assert(g == g0.update(g0.len() - 1, (v, (g0.last().1 + 1) as u64)));
            assert(forall|t: int| 0 <= t < g.len() ==> (#[trigger] g[t]).0 == g0[t].0);
            if non_decreasing(s) {
                assert(non_decreasing(s0));
                assert(groups_strictly_sorted(g));
            }
            if groups_strictly_sorted(g) {
                assert forall|a: int, b: int| 0 <= a < b < g0.len() implies g0[a].0 < g0[b].0 by {
                    assert(g[a].0 < g[b].0);
                }
                assert(groups_strictly_sorted(g0));
                assert(non_decreasing(s0));
                assert(s0.last() == v);
                assert forall|a: int, b: int| 0 <= a <= b < s.len() implies s[a] <= s[b] by {
                    if b < s.len() - 1 {
                        assert(s0[a] <= s0[b]);
                    } else if a < s.len() - 1 {
                        assert(s0[a] <= s0[s0.len() - 1]);
                    }
                }
            }
        } else {
            assert(g == g0.push((v, 1u64)));
            assert(forall|t: int| 0 <= t < g0.len() ==> (#[trigger] g[t]).0 == g0[t].0);
            if non_decreasing(s) {
                assert(non_decreasing(s0));
                assert(groups_strictly_sorted(g0));
                assert(s0.last() <= v);
                assert(s0.last() != v || g0.last().0 == v);
                assert(g0.last().0 == s0.last());
                assert(forall|t: int| 0 <= t < g0.len() ==> (#[trigger] g0[t]).0 <= g0.last().0);
                assert(groups_strictly_sorted(g));
            }
            if groups_strictly_sorted(g) {
                assert forall|a: int, b: int| 0 <= a < b < g0.len() implies g0[a].0 < g0[b].0 by {
                    assert(g[a].0 < g[b].0);
                }
                assert(groups_strictly_sorted(g0));
                assert(non_decreasing(s0));
                assert(g[g0.len() - 1].0 < g[g0.len() as int].0);
                assert(g0.last().0 < v);
                assert(s0.last() < v);
                assert forall|a: int, b: int| 0 <= a <= b < s.len() implies s[a] <= s[b] by {
                    if b < s.len() - 1 {
                        assert(s0[a] <= s0[b]);
                    } else if a < s.len() - 1 {
                        assert(s0[a] <= s0[s0.len() - 1]);
                    }
                }
            }
        }
    }
}

} // verus!
