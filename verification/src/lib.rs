//! Summary-quality statistics for collections of biological sequence records:
//! per-sequence lengths (raw, homopolymer-compressed, and variants excluding
//! masked bases), length distributions, and Nx percentile metrics.

pub mod distribution;
pub mod filter;
pub mod nx;
pub mod report;
pub mod stats;

use crate::distribution::DistributionSet;
use crate::filter::{excluded_spec, is_excluded};
use crate::stats::{counted_bytes, masked_count, masked_run_count, run_count, SequenceStatistics};
use vstd::prelude::*;

verus! {

/// Processes one record: leaves the distributions unchanged when the id is
/// filtered out, and otherwise extracts the record's four statistics and
/// appends them. Returns whether the record was excluded.
pub fn process_record(
    distributions: &mut DistributionSet,
    id: &String,
    sequence: &[u8],
    filter_ids: &Vec<String>,
) -> (excluded: bool)
    requires
        old(distributions).wf(),
    ensures
        final(distributions).wf(),
        excluded == excluded_spec(id@, filter_ids@),
        excluded ==> *final(distributions) == *old(distributions),
        !excluded ==> {
            let t = counted_bytes(sequence@);
            &&& final(distributions).lengths@ == old(distributions).lengths@.push(t.len() as usize)
            &&& final(distributions).hoco_lengths@ == old(distributions).hoco_lengths@.push(
                run_count(t) as usize,
            )
            &&& final(distributions).lengths_without_ns@ == old(
                distributions,
            ).lengths_without_ns@.push((t.len() - masked_count(t)) as usize)
            &&& final(distributions).hoco_lengths_without_ns@ == old(
                distributions,
            ).hoco_lengths_without_ns@.push((run_count(t) - masked_run_count(t)) as usize)
        },
{
    if is_excluded(id, filter_ids) {
        return true;
    }
    let stats = SequenceStatistics::new(sequence);
    distributions.push(&stats);
    false
}

} // verus!
