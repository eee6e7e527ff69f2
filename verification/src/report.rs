//! The report: per-distribution summaries (total length, Nx metrics, extreme
//! lengths), grouped by statistic family, computed once after all records are
//! aggregated.

use crate::distribution::{
    lemma_seq_sum_monotone, lemma_seq_sum_multiset, lemma_sorted_desc_unique, seq_sum,
    sort_descending, sorted_desc, total_length, DistributionSet,
};
use crate::nx::{coverage_threshold, nx, nx_spec, threshold_spec};
use vstd::prelude::*;

verus! {

/// A configuration error: a requested percentile lies outside [0, 100].
#[derive(Debug)]
pub enum StatsError {
    /// The offending percentile value.
    PercentileOutOfRange(u8),
}

/// One Nx metric: the requested percentile and the computed length value.
pub struct NxEntry {
    /// The percentile, in [0, 100].
    pub percentile: u8,
    /// The Nx value of the distribution at that percentile.
    pub value: usize,
}

/// The percentiles reported for every distribution: the mandatory 50 and 75
/// followed by the caller-supplied additional ones, in their given order and
/// without deduplication.
pub open spec fn requested_percentiles(additional: Seq<u8>) -> Seq<u8> {
    seq![50u8, 75u8] + additional
}

/// Every requested percentile lies in [0, 100].
pub open spec fn percentiles_valid(additional: Seq<u8>) -> bool {
    forall|i: int| 0 <= i < additional.len() ==> #[trigger] additional[i] <= 100
}

/// Summary of one sorted length distribution.
pub struct VariantReport {
    /// Sum of all lengths.
    pub total_length: usize,
    /// One entry per requested percentile, in request order.
    pub nx_entries: Vec<NxEntry>,
    /// The largest length.
    pub max_len: usize,
    /// The smallest length.
    pub min_len: usize,
}

impl VariantReport {
    /// The report is exactly the summary of the given sorted distribution
    /// under the given additional percentiles.
    pub open spec fn matches(self, sorted: Seq<usize>, additional: Seq<u8>) -> bool {
        let ps = requested_percentiles(additional);
        &&& self.total_length == seq_sum(sorted)
        &&& self.nx_entries@.len() == ps.len()
        &&& forall|k: int|
            0 <= k < ps.len() ==> (#[trigger] self.nx_entries@[k]).percentile == ps[k]
        &&& forall|k: int|
            0 <= k < ps.len() ==> (#[trigger] self.nx_entries@[k]).value == nx_spec(
                sorted,
                threshold_spec(seq_sum(sorted), ps[k] as int),
            )
        &&& self.max_len == sorted[0]
        &&& self.min_len == sorted[sorted.len() - 1]
    }
}

/// Sorts one distribution in place and summarizes it: total length, the Nx
/// value for 50, 75 and each additional percentile, and the extreme lengths.
pub fn summarize_lengths(lengths: &mut Vec<usize>, additional_percentiles: &Vec<u8>) -> (r:
    VariantReport)
    requires
        old(lengths)@.len() > 0,
        seq_sum(old(lengths)@) <= usize::MAX,
        percentiles_valid(additional_percentiles@),
    ensures
        sorted_desc(final(lengths)@),
        final(lengths)@.to_multiset() == old(lengths)@.to_multiset(),
        final(lengths)@.len() == old(lengths)@.len(),
        r.matches(final(lengths)@, additional_percentiles@),
{
    sort_descending(lengths);
    proof {
        lemma_seq_sum_multiset(old(lengths)@, lengths@);
    }
    let ghost sorted = lengths@;
    let total = match total_length(lengths) {
        Some(t) => t,
        None => vstd::pervasive::unreached(),
    };
    let mut nx_entries: Vec<NxEntry> = Vec::new();
    let t50 = coverage_threshold(total, 50);
    let v50 = nx(lengths.as_slice(), total, t50);
    nx_entries.push(NxEntry { percentile: 50, value: v50 });
    let t75 = coverage_threshold(total, 75);
    let v75 = nx(lengths.as_slice(), total, t75);
    nx_entries.push(NxEntry { percentile: 75, value: v75 });
    let ghost ps = requested_percentiles(additional_percentiles@);
    proof {
        assert(ps[0] == 50u8);
        assert(ps[1] == 75u8);
    }
    let mut k: usize = 0;
    while k < additional_percentiles.len()
        invariant
            0 <= k <= additional_percentiles@.len(),
            lengths@ == sorted,
            sorted.len() > 0,
            sorted_desc(sorted),
            total == seq_sum(sorted),
            percentiles_valid(additional_percentiles@),
            ps == requested_percentiles(additional_percentiles@),
            nx_entries@.len() == k + 2,
            forall|m: int|
                0 <= m < k + 2 ==> (#[trigger] nx_entries@[m]).percentile == ps[m],
            forall|m: int|
                0 <= m < k + 2 ==> (#[trigger] nx_entries@[m]).value == nx_spec(
                    sorted,
                    threshold_spec(seq_sum(sorted), ps[m] as int),
                ),
        decreases additional_percentiles@.len() - k,
    {
        let p = additional_percentiles[k];
        let t = coverage_threshold(total, p);
        let v = nx(lengths.as_slice(), total, t);
        nx_entries.push(NxEntry { percentile: p, value: v });
        proof {
            assert(ps[k + 2] == p);
        }
        k = k + 1;
    }
    let max_len = lengths[0];
    let min_len = lengths[lengths.len() - 1];
    VariantReport { total_length: total, nx_entries, max_len, min_len }
}

/// Reports for one statistic family (raw or homopolymer-compressed): the
/// masked-position count and the summaries including and excluding masked
/// positions.
pub struct GroupReport {
    /// Number of masked positions: the difference of the two totals.
    pub masked_count: usize,
    /// Summary of the distribution including masked positions.
    pub with_masked: VariantReport,
    /// Summary of the distribution excluding masked positions.
    pub without_masked: VariantReport,
}

/// Sorts and summarizes a pair of distributions (including and excluding
/// masked positions) and counts the masked positions.
pub fn summarize_group(
    lengths: &mut Vec<usize>,
    lengths_without_ns: &mut Vec<usize>,
    additional_percentiles: &Vec<u8>,
) -> (r: GroupReport)
    requires
        old(lengths)@.len() > 0,
        old(lengths_without_ns)@.len() == old(lengths)@.len(),
        forall|i: int|
            0 <= i < old(lengths)@.len() ==> #[trigger] old(lengths_without_ns)@[i]
                <= old(lengths)@[i],
        seq_sum(old(lengths)@) <= usize::MAX,
        percentiles_valid(additional_percentiles@),
    ensures
        sorted_desc(final(lengths)@),
        final(lengths)@.to_multiset() == old(lengths)@.to_multiset(),
        sorted_desc(final(lengths_without_ns)@),
        final(lengths_without_ns)@.to_multiset() == old(lengths_without_ns)@.to_multiset(),
        r.with_masked.matches(final(lengths)@, additional_percentiles@),
        r.without_masked.matches(final(lengths_without_ns)@, additional_percentiles@),
        r.masked_count == seq_sum(old(lengths)@) - seq_sum(old(lengths_without_ns)@),
{
    proof {
        lemma_seq_sum_monotone(old(lengths_without_ns)@, old(lengths)@);
    }
    let with_masked = summarize_lengths(lengths, additional_percentiles);
    let without_masked = summarize_lengths(lengths_without_ns, additional_percentiles);
    proof {
        lemma_seq_sum_multiset(old(lengths)@, lengths@);
        lemma_seq_sum_multiset(old(lengths_without_ns)@, lengths_without_ns@);
    }
    let masked_count = with_masked.total_length - without_masked.total_length;
    GroupReport { masked_count, with_masked, without_masked }
}

/// The reports of the two statistic families.
pub struct ReportBody {
    /// The raw-length family.
    pub raw: GroupReport,
    /// The homopolymer-compressed family.
    pub hoco: GroupReport,
}

/// The whole run's report: the record count, and the per-family summaries
/// whenever at least one record survived filtering.
pub struct Report {
    /// Number of surviving records.
    pub record_count: usize,
    /// The length-derived sections; absent when no record survived, since Nx
    /// is undefined over an empty distribution.
    pub body: Option<ReportBody>,
}

/// Validates the additional percentiles and computes the whole report,
/// sorting the four distributions in place.
pub fn compute_report(distributions: &mut DistributionSet, additional_percentiles: &Vec<u8>) -> (r:
    Result<Report, StatsError>)
    requires
        old(distributions).wf(),
        seq_sum(old(distributions).lengths@) <= usize::MAX,
    ensures
        match r {
            Ok(report) => {
                &&& percentiles_valid(additional_percentiles@)
                &&& report.record_count == old(distributions).lengths@.len()
                &&& old(distributions).lengths@.len() == 0 ==> report.body is None
                &&& old(distributions).lengths@.len() > 0 ==> match report.body {
                    Some(body) => {
                        &&& sorted_desc(final(distributions).lengths@)
                        &&& final(distributions).lengths@.to_multiset() == old(
                            distributions,
                        ).lengths@.to_multiset()
                        &&& sorted_desc(final(distributions).lengths_without_ns@)
                        &&& final(distributions).lengths_without_ns@.to_multiset() == old(
                            distributions,
                        ).lengths_without_ns@.to_multiset()
                        &&& sorted_desc(final(distributions).hoco_lengths@)
                        &&& final(distributions).hoco_lengths@.to_multiset() == old(
                            distributions,
                        ).hoco_lengths@.to_multiset()
                        &&& sorted_desc(final(distributions).hoco_lengths_without_ns@)
                        &&& final(distributions).hoco_lengths_without_ns@.to_multiset() == old(
                            distributions,
                        ).hoco_lengths_without_ns@.to_multiset()
                        &&& body.raw.with_masked.matches(
                            final(distributions).lengths@,
                            additional_percentiles@,
                        )
                        &&& body.raw.without_masked.matches(
                            final(distributions).lengths_without_ns@,
                            additional_percentiles@,
                        )
                        &&& body.raw.masked_count == seq_sum(old(distributions).lengths@) - seq_sum(
                            old(distributions).lengths_without_ns@,
                        )
                        &&& body.hoco.with_masked.matches(
                            final(distributions).hoco_lengths@,
                            additional_percentiles@,
                        )
                        &&& body.hoco.without_masked.matches(
                            final(distributions).hoco_lengths_without_ns@,
                            additional_percentiles@,
                        )
                        &&& body.hoco.masked_count == seq_sum(old(distributions).hoco_lengths@)
                            - seq_sum(old(distributions).hoco_lengths_without_ns@)
                    },
                    None => false,
                }
            },
            Err(StatsError::PercentileOutOfRange(p)) => {
                &&& !percentiles_valid(additional_percentiles@)
                &&& exists|i: int|
                    0 <= i < additional_percentiles@.len() && #[trigger] additional_percentiles@[i]
                        == p && p > 100 && forall|j: int|
                        0 <= j < i ==> #[trigger] additional_percentiles@[j] <= 100
            },
        },
{
    let mut k: usize = 0;
    while k < additional_percentiles.len()
        invariant
            0 <= k <= additional_percentiles@.len(),
            forall|j: int| 0 <= j < k ==> #[trigger] additional_percentiles@[j] <= 100,
        decreases additional_percentiles@.len() - k,
    {
        let p = additional_percentiles[k];
        if p > 100 {
            return Err(StatsError::PercentileOutOfRange(p));
        }
        k = k + 1;
    }
    let record_count = distributions.record_count();
    if record_count == 0 {
        return Ok(Report { record_count, body: None });
    }
    proof {
        lemma_seq_sum_monotone(
            old(distributions).hoco_lengths@,
            old(distributions).lengths@,
        );
    }
    let raw = summarize_group(
        &mut distributions.lengths,
        &mut distributions.lengths_without_ns,
        additional_percentiles,
    );
    let hoco = summarize_group(
        &mut distributions.hoco_lengths,
        &mut distributions.hoco_lengths_without_ns,
        additional_percentiles,
    );
    Ok(Report { record_count, body: Some(ReportBody { raw, hoco }) })
}

/// Reports computed from distributions with the same contents and the same
/// percentile configuration are identical: summarizing is deterministic and
/// independent of arrival order.
pub proof fn lemma_report_deterministic(
    r1: VariantReport,
    r2: VariantReport,
    s1: Seq<usize>,
    s2: Seq<usize>,
    additional: Seq<u8>,
)
    requires
        sorted_desc(s1),
        sorted_desc(s2),
        s1.to_multiset() == s2.to_multiset(),
        r1.matches(s1, additional),
        r2.matches(s2, additional),
    ensures
        s1 == s2,
        r1.total_length == r2.total_length,
        r1.max_len == r2.max_len,
        r1.min_len == r2.min_len,
        r1.nx_entries@.len() == r2.nx_entries@.len(),
        forall|k: int|
            0 <= k < r1.nx_entries@.len() ==> (#[trigger] r1.nx_entries@[k]).percentile
                == r2.nx_entries@[k].percentile && r1.nx_entries@[k].value
                == r2.nx_entries@[k].value,
{
    lemma_sorted_desc_unique(s1, s2);
}

} // verus!
