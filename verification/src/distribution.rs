//! Length distributions: sums, descending order, and in-place sorting of the
//! per-record length collections.

use vstd::prelude::*;

verus! {

/// Sorted in non-increasing order (ties allowed).
pub open spec fn sorted_desc(s: Seq<usize>) -> bool {
    forall|i: int, j: int| 0 <= i <= j < s.len() ==> #[trigger] s[i] >= #[trigger] s[j]
}

/// Sum of all lengths in a distribution.
pub open spec fn seq_sum(s: Seq<usize>) -> int
    decreases s.len(),
{
    if s.len() == 0 {
        0
    } else {
        seq_sum(s.drop_last()) + s.last()
    }
}

/// A sum of lengths is never negative.
pub proof fn lemma_seq_sum_nonneg(s: Seq<usize>)
    ensures
        seq_sum(s) >= 0,
    decreases s.len(),
{
    if s.len() > 0 {
        lemma_seq_sum_nonneg(s.drop_last());
    }
}

/// The sum of a non-empty distribution is its first element plus the sum of
/// the rest.
pub proof fn lemma_seq_sum_first(s: Seq<usize>)
    requires
        s.len() > 0,
    ensures
        seq_sum(s) == s[0] + seq_sum(s.subrange(1, s.len() as int)),
    decreases s.len(),
{
    if s.len() == 1 {
        assert(s.drop_last() =~= Seq::empty());
        assert(s.subrange(1, s.len() as int) =~= Seq::empty());
    } else {
        lemma_seq_sum_first(s.drop_last());
        assert(s.drop_last().subrange(1, s.drop_last().len() as int) =~= s.subrange(
            1,
            s.len() as int,
        ).drop_last());
        assert(s.drop_last()[0] == s[0]);
        assert(s.subrange(1, s.len() as int).last() == s.last());
    }
}

/// The sum of a prefix never exceeds the sum of the whole distribution.
pub proof fn lemma_seq_sum_prefix_bound(s: Seq<usize>, n: int)
    requires
        0 <= n <= s.len(),
    ensures
        seq_sum(s.subrange(0, n)) <= seq_sum(s),
    decreases s.len() - n,
{
    if n < s.len() {
        lemma_seq_sum_prefix_bound(s, n + 1);
        assert(s.subrange(0, n + 1).drop_last() =~= s.subrange(0, n));
        assert(seq_sum(s.subrange(0, n + 1)) == seq_sum(s.subrange(0, n)) + s[n]);
    } else {
        assert(s.subrange(0, n) =~= s);
    }
}

/// Element-wise dominated distributions have dominated sums.
pub proof fn lemma_seq_sum_monotone(a: Seq<usize>, b: Seq<usize>)
    requires
        a.len() == b.len(),
        forall|i: int| 0 <= i < a.len() ==> #[trigger] a[i] <= #[trigger] b[i],
    ensures
        seq_sum(a) <= seq_sum(b),
    decreases a.len(),
{
    if a.len() > 0 {
        assert(forall|i: int|
            0 <= i < a.drop_last().len() ==> #[trigger] a.drop_last()[i] <= #[trigger] b.drop_last()[i]);
        lemma_seq_sum_monotone(a.drop_last(), b.drop_last());
    }
}

/// Removing one element takes exactly its value out of the sum.
pub proof fn lemma_seq_sum_remove(s: Seq<usize>, j: int)
    requires
        0 <= j < s.len(),
    ensures
        seq_sum(s) == s[j] + seq_sum(s.remove(j)),
    decreases s.len(),
{
    if j == s.len() - 1 {
        assert(s.remove(j) =~= s.drop_last());
    } else {
        lemma_seq_sum_remove(s.drop_last(), j);
        assert(s.remove(j).drop_last() =~= s.drop_last().remove(j));
        assert(s.remove(j).last() == s.last());
    }
}

/// The sum of a distribution depends only on its contents, not their order.
pub proof fn lemma_seq_sum_multiset(a: Seq<usize>, b: Seq<usize>)
    requires
        a.to_multiset() == b.to_multiset(),
    ensures
        seq_sum(a) == seq_sum(b),
    decreases a.len(),
{
    broadcast use vstd::seq_lib::group_to_multiset_ensures;
    broadcast use vstd::multiset::group_multiset_axioms;

    if a.len() == 0 {
        assert(b.to_multiset().len() == 0);
    } else {
        let x = a.last();
        assert(a.to_multiset().contains(x)) by {
            assert(a[a.len() - 1] == x);
        }
        assert(b.to_multiset().contains(x));
        let j = choose|j: int| 0 <= j < b.len() && b[j] == x;
        assert(a.remove(a.len() - 1) =~= a.drop_last());
        assert(a.drop_last().to_multiset() =~= a.to_multiset().remove(x));
        assert(b.remove(j).to_multiset() =~= b.to_multiset().remove(x));
        lemma_seq_sum_multiset(a.drop_last(), b.remove(j));
        lemma_seq_sum_remove(b, j);
    }
}

/// Two sorted-descending distributions with the same contents are equal; in
/// particular, sorting an already sorted-descending distribution is a no-op.
pub proof fn lemma_sorted_desc_unique(a: Seq<usize>, b: Seq<usize>)
    requires
        sorted_desc(a),
        sorted_desc(b),
        a.to_multiset() == b.to_multiset(),
    ensures
        a == b,
{
    let ge = |x: usize, y: usize| x >= y;
    assert(vstd::relations::sorted_by(a, ge));
    assert(vstd::relations::sorted_by(b, ge));
    assert(vstd::relations::total_ordering(ge));
    vstd::seq_lib::lemma_sorted_unique(a, b, ge);
    assert(a =~= b);
}

/// Sorting an already sorted-descending distribution is a no-op: any result
/// of sorting it (a sorted-descending rearrangement of its contents) is the
/// distribution itself.
pub proof fn lemma_sort_of_sorted_is_noop(before: Seq<usize>, after: Seq<usize>)
    requires
        sorted_desc(before),
        sorted_desc(after),
        after.to_multiset() == before.to_multiset(),
    ensures
        after == before,
{
    lemma_sorted_desc_unique(after, before);
}

/// Sorts a distribution into non-increasing order in place.
pub fn sort_descending(lengths: &mut Vec<usize>)
    ensures
        sorted_desc(final(lengths)@),
        final(lengths)@.to_multiset() == old(lengths)@.to_multiset(),
        final(lengths)@.len() == old(lengths)@.len(),
{
    broadcast use vstd::seq_lib::to_multiset_update;
    broadcast use vstd::seq_lib::group_to_multiset_ensures;

    let ghost orig = lengths@;
    let mut i: usize = 1;
    while i < lengths.len()
        invariant
            1 <= i,
            lengths@.len() == orig.len(),
            lengths@.to_multiset() == orig.to_multiset(),
            sorted_desc(lengths@.subrange(0, i as int)) || i > lengths@.len(),
            forall|a: int, b: int|
                0 <= a <= b < i && b < lengths@.len() ==> #[trigger] lengths@[a]
                    >= #[trigger] lengths@[b],
        decreases lengths@.len() - i,
    {
        let mut j: usize = i;
        while j > 0 && lengths[j - 1] < lengths[j]
            invariant
                0 <= j <= i < lengths@.len(),
                lengths@.len() == orig.len(),
                lengths@.to_multiset() == orig.to_multiset(),
                forall|a: int, b: int|
                    0 <= a <= b <= i && a != j && b != j ==> #[trigger] lengths@[a]
                        >= #[trigger] lengths@[b],
                forall|b: int| j < b <= i ==> lengths@[j as int] >= #[trigger] lengths@[b],
            decreases j,
        {
            let ghost before = lengths@;
            let x = lengths[j];
            let y = lengths[j - 1];
            lengths.set(j - 1, x);
            lengths.set(j, y);
            proof {
                broadcast use vstd::multiset::group_multiset_axioms;
                broadcast use vstd::seq_lib::group_to_multiset_ensures;

                let s1 = before.update(j - 1, x);
                assert(lengths@ =~= s1.update(j as int, y));
                vstd::seq_lib::to_multiset_update(before, j - 1, x);
                assert(s1.to_multiset() == before.to_multiset().insert(x).remove(before[j - 1]));
                assert(s1[j as int] == x);
                vstd::seq_lib::to_multiset_update(s1, j as int, y);
                assert(lengths@.to_multiset() == s1.to_multiset().insert(y).remove(x));
                assert(before.to_multiset().contains(y)) by {
                    assert(before[j - 1] == y);
                }
                assert(lengths@.to_multiset() =~= before.to_multiset());
            }
            j = j - 1;
        }
        i = i + 1;
    }
    proof {
        if lengths@.len() > 0 {
            assert(lengths@.subrange(0, lengths@.len() as int) =~= lengths@);
        }
    }
}

/// Computes the total length of a distribution, reporting overflow rather
/// than wrapping.
pub fn total_length(lengths: &Vec<usize>) -> (r: Option<usize>)
    ensures
        match r {
            Some(total) => total == seq_sum(lengths@),
            None => seq_sum(lengths@) > usize::MAX,
        },
{
    let mut total: usize = 0;
    let mut i: usize = 0;
    while i < lengths.len()
        invariant
            0 <= i <= lengths@.len(),
            total == seq_sum(lengths@.subrange(0, i as int)),
        decreases lengths@.len() - i,
    {
        proof {
            assert(lengths@.subrange(0, i + 1 as int).drop_last() =~= lengths@.subrange(0, i as int));
            assert(seq_sum(lengths@.subrange(0, i + 1 as int)) == seq_sum(
                lengths@.subrange(0, i as int),
            ) + lengths@[i as int]);
        }
        let len = lengths[i];
        if total > usize::MAX - len {
            proof {
                lemma_seq_sum_prefix_bound(lengths@, i + 1);
            }
            return None;
        }
        total = total + len;
        i = i + 1;
    }
    proof {
        assert(lengths@.subrange(0, lengths@.len() as int) =~= lengths@);
    }
    Some(total)
}

/// The aggregator: the four per-record length distributions of one run, one
/// entry per surviving record, in arrival order until sorted.
pub struct DistributionSet {
    /// Raw lengths.
    pub lengths: Vec<usize>,
    /// Homopolymer-compressed lengths.
    pub hoco_lengths: Vec<usize>,
    /// Raw lengths excluding masked positions.
    pub lengths_without_ns: Vec<usize>,
    /// Homopolymer-compressed lengths excluding masked runs.
    pub hoco_lengths_without_ns: Vec<usize>,
}

impl DistributionSet {
    /// The four distributions hold one entry per record, and each record's
    /// entries respect the structural bounds of its statistics.
    pub open spec fn wf(self) -> bool {
        &&& self.hoco_lengths@.len() == self.lengths@.len()
        &&& self.lengths_without_ns@.len() == self.lengths@.len()
        &&& self.hoco_lengths_without_ns@.len() == self.lengths@.len()
        &&& forall|i: int|
            0 <= i < self.lengths@.len() ==> #[trigger] self.hoco_lengths@[i] <= self.lengths@[i]
        &&& forall|i: int|
            0 <= i < self.lengths@.len() ==> #[trigger] self.lengths_without_ns@[i]
                <= self.lengths@[i]
        &&& forall|i: int|
            0 <= i < self.lengths@.len() ==> #[trigger] self.hoco_lengths_without_ns@[i]
                <= self.hoco_lengths@[i]
    }

    /// Four empty distributions.
    pub fn new() -> (r: Self)
        ensures
            r.wf(),
            r.lengths@.len() == 0,
            r.hoco_lengths@.len() == 0,
            r.lengths_without_ns@.len() == 0,
            r.hoco_lengths_without_ns@.len() == 0,
    {
        DistributionSet {
            lengths: Vec::new(),
            hoco_lengths: Vec::new(),
            lengths_without_ns: Vec::new(),
            hoco_lengths_without_ns: Vec::new(),
        }
    }

    /// Appends one record's four statistics, in input order.
    pub fn push(&mut self, stats: &crate::stats::SequenceStatistics)
        requires
            old(self).wf(),
            stats.wf(),
        ensures
            final(self).wf(),
            final(self).lengths@ == old(self).lengths@.push(stats.len),
            final(self).hoco_lengths@ == old(self).hoco_lengths@.push(stats.hoco_len),
            final(self).lengths_without_ns@ == old(self).lengths_without_ns@.push(
                stats.len_without_ns,
            ),
            final(self).hoco_lengths_without_ns@ == old(self).hoco_lengths_without_ns@.push(
                stats.hoco_len_without_ns,
            ),
    {
        self.lengths.push(stats.len);
        self.hoco_lengths.push(stats.hoco_len);
        self.lengths_without_ns.push(stats.len_without_ns);
        self.hoco_lengths_without_ns.push(stats.hoco_len_without_ns);
    }

    /// The number of surviving records aggregated so far.
    pub fn record_count(&self) -> (r: usize)
        ensures
            r == self.lengths@.len(),
    {
        self.lengths.len()
    }
}

} // verus!
