//! The Nx calculator: given a length distribution sorted in non-increasing
//! order and its total, finds the length at which the cumulative sum, scanned
//! from the largest element downward, first reaches a required coverage.

use crate::distribution::{
    lemma_seq_sum_first, lemma_seq_sum_nonneg, lemma_seq_sum_prefix_bound, seq_sum, sorted_desc,
};
use vstd::prelude::*;

verus! {

/// The Nx value of a distribution: the first element, scanning from the
/// front, at which the cumulative sum reaches `required`.
pub open spec fn nx_spec(s: Seq<usize>, required: int) -> usize
    decreases s.len(),
{
    if s.len() == 0 {
        0
    } else if required <= s[0] {
        s[0]
    } else {
        nx_spec(s.subrange(1, s.len() as int), required - s[0])
    }
}

/// The required coverage for a percentile: `sum * percentile / 100`, the
/// number of bases that the longest sequences must together reach.
pub open spec fn threshold_spec(sum: int, percentile: int) -> int {
    sum * percentile / 100
}

/// Computes the required coverage for a percentile in [0, 100], widening to
/// 128-bit arithmetic so the multiplication cannot overflow.
pub fn coverage_threshold(sum: usize, percentile: u8) -> (r: usize)
    requires
        percentile <= 100,
    ensures
        r == threshold_spec(sum as int, percentile as int),
        r <= sum,
{
    proof {
        assert((sum as int) * (percentile as int) <= (sum as int) * 100) by (nonlinear_arith)
            requires
                percentile <= 100,
                sum >= 0,
        ;
        assert((sum as int) * (percentile as int) >= 0) by (nonlinear_arith)
            requires
                percentile >= 0,
                sum >= 0,
        ;
        vstd::arithmetic::div_mod::lemma_div_is_ordered(
            (sum as int) * (percentile as int),
            (sum as int) * 100,
            100,
        );
        vstd::arithmetic::div_mod::lemma_div_multiples_vanish(sum as int, 100);
        assert((sum as int) * 100 == 100 * (sum as int));
        vstd::arithmetic::div_mod::lemma_div_pos_is_pos((sum as int) * (percentile as int), 100);
    }
    let wide: u128 = (sum as u128) * (percentile as u128) / 100;
    wide as usize
}

/// The length of the shortest-index element of the sorted distribution whose
/// cumulative running sum first reaches or exceeds the required coverage.
/// Never reaches the end of the distribution: the required coverage is at
/// most the total, so an answer always exists.
pub fn nx(lengths: &[usize], sum: usize, required_covered_bases: usize) -> (r: usize)
    requires
        lengths@.len() > 0,
        sorted_desc(lengths@),
        sum == seq_sum(lengths@),
        required_covered_bases <= sum,
    ensures
        r == nx_spec(lengths@, required_covered_bases as int),
{
    let ghost full = lengths@;
    let mut running: usize = 0;
    let mut i: usize = 0;
    proof {
        assert(full.subrange(0, 0) =~= Seq::empty());
        assert(full.subrange(0, full.len() as int) =~= full);
    }
    while i < lengths.len()
        invariant
            0 <= i <= full.len(),
            full.len() > 0,
            lengths@ == full,
            required_covered_bases <= seq_sum(full) <= usize::MAX,
            running == seq_sum(full.subrange(0, i as int)),
            i > 0 ==> running < required_covered_bases,
            nx_spec(full, required_covered_bases as int) == nx_spec(
                full.subrange(i as int, full.len() as int),
                required_covered_bases - running,
            ),
        decreases full.len() - i,
    {
        let ghost rem = full.subrange(i as int, full.len() as int);
        let len = lengths[i];
        proof {
            assert(full.subrange(0, i + 1 as int).drop_last() =~= full.subrange(0, i as int));
            assert(seq_sum(full.subrange(0, i + 1 as int)) == seq_sum(full.subrange(0, i as int))
                + full[i as int]);
            lemma_seq_sum_prefix_bound(full, i + 1 as int);
            assert(running + len == seq_sum(full.subrange(0, i + 1 as int)));
        }
        running = running + len;
        i = i + 1;
        if running >= required_covered_bases {
            proof {
                assert(rem[0] == len);
                assert(required_covered_bases - (running - len) <= rem[0]);
                assert(nx_spec(rem, required_covered_bases - (running - len)) == len);
            }
            return len;
        }
        proof {
            assert(rem[0] == len);
            assert(required_covered_bases - (running - len) > rem[0]);
            assert(rem.subrange(1, rem.len() as int) =~= full.subrange(
                i as int,
                full.len() as int,
            ));
        }
    }
    proof {
        assert(full.subrange(0, full.len() as int) =~= full);
        assert(false);
    }
    vstd::pervasive::unreached()
}

/// Index `i` is the coverage point of `s` for `required`: its element is the
/// Nx value, the cumulative sum through it reaches `required`, and the
/// cumulative sum excluding it falls short (unless it is the first element).
pub open spec fn coverage_point(s: Seq<usize>, required: int, i: int) -> bool {
    &&& 0 <= i < s.len()
    &&& s[i] == nx_spec(s, required)
    &&& seq_sum(s.subrange(0, i + 1)) >= required
    &&& i == 0 || seq_sum(s.subrange(0, i)) < required
}

/// The Nx value is an element of the distribution, standing at the least
/// index whose prefix reaches the required coverage: the cumulative sum up to
/// and including that element reaches the required coverage, while the
/// cumulative sum excluding it falls short (unless the element is the first).
pub proof fn lemma_nx_is_coverage_point(s: Seq<usize>, required: int)
    requires
        s.len() > 0,
        sorted_desc(s),
        0 <= required <= seq_sum(s),
    ensures
        exists|i: int| #[trigger] coverage_point(s, required, i),
    decreases s.len(),
{
    lemma_seq_sum_first(s);
    let rest = s.subrange(1, s.len() as int);
    if required <= s[0] {
        lemma_seq_sum_first(s.subrange(0, 1));
        assert(s.subrange(0, 1).subrange(1, 1) =~= Seq::<usize>::empty());
        assert(s.subrange(0, 0) =~= Seq::<usize>::empty());
        assert(seq_sum(s.subrange(0, 1)) == s[0]);
        assert(coverage_point(s, required, 0));
    } else {
        lemma_seq_sum_nonneg(rest);
        assert(rest.len() > 0) by {
            if rest.len() == 0 {
                assert(seq_sum(s) == s[0]);
            }
        }
        assert(sorted_desc(rest));
        lemma_nx_is_coverage_point(rest, required - s[0]);
        let j = choose|j: int| #[trigger] coverage_point(rest, required - s[0], j);
        let i = j + 1;
        assert(s[i] == rest[j]);
        assert(nx_spec(s, required) == nx_spec(rest, required - s[0]));
        lemma_seq_sum_first(s.subrange(0, i + 1));
        assert(s.subrange(0, i + 1).subrange(1, i + 1) =~= rest.subrange(0, j + 1));
        assert(seq_sum(s.subrange(0, i + 1)) == s[0] + seq_sum(rest.subrange(0, j + 1)));
        lemma_seq_sum_first(s.subrange(0, i));
        assert(s.subrange(0, i).subrange(1, i) =~= rest.subrange(0, j));
        assert(seq_sum(s.subrange(0, i)) == s[0] + seq_sum(rest.subrange(0, j)));
        if j == 0 {
            assert(rest.subrange(0, 0) =~= Seq::<usize>::empty());
            assert(seq_sum(s.subrange(0, i)) == s[0] < required);
        }
        assert(coverage_point(s, required, i));
    }
}

/// At required coverage zero (percentile 0) the Nx value is the first and
/// largest element of the sorted distribution.
pub proof fn lemma_nx_zero_coverage(s: Seq<usize>)
    requires
        s.len() > 0,
        sorted_desc(s),
    ensures
        nx_spec(s, 0) == s[0],
        forall|j: int| 0 <= j < s.len() ==> #[trigger] s[j] <= s[0],
{
}

/// At required coverage equal to the whole sum (percentile 100), the Nx value
/// of a distribution of positive lengths is its last and smallest element.
pub proof fn lemma_nx_full_coverage(s: Seq<usize>)
    requires
        s.len() > 0,
        sorted_desc(s),
        forall|i: int| 0 <= i < s.len() ==> #[trigger] s[i] > 0,
    ensures
        nx_spec(s, seq_sum(s)) == s[s.len() - 1],
        forall|j: int| 0 <= j < s.len() ==> #[trigger] s[j] >= s[s.len() - 1],
    decreases s.len(),
{
    lemma_seq_sum_first(s);
    let rest = s.subrange(1, s.len() as int);
    if s.len() == 1 {
        assert(seq_sum(s) == s[0]);
    } else {
        assert(rest.len() > 0);
        assert(forall|i: int| 0 <= i < rest.len() ==> #[trigger] rest[i] > 0);
        lemma_seq_sum_nonneg(rest.subrange(1, rest.len() as int));
        lemma_seq_sum_first(rest);
        assert(seq_sum(rest) >= rest[0] > 0);
        assert(seq_sum(s) > s[0]);
        lemma_nx_full_coverage(rest);
        assert(nx_spec(s, seq_sum(s)) == nx_spec(rest, seq_sum(s) - s[0]));
        assert(rest[rest.len() - 1] == s[s.len() - 1]);
    }
}

/// At percentile 100 the required coverage is exactly the total sum, and at
/// percentile 0 it is zero.
pub proof fn lemma_threshold_extremes(sum: int)
    requires
        sum >= 0,
    ensures
        threshold_spec(sum, 100) == sum,
        threshold_spec(sum, 0) == 0,
{
    vstd::arithmetic::div_mod::lemma_div_multiples_vanish(sum, 100);
    assert(sum * 100 == 100 * sum);
    assert(sum * 0 == 0);
    assert(threshold_spec(sum, 0) == 0int / 100);
}

} // verus!
