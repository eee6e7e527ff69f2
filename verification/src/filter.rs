//! The record filter: decides whether a record, identified by its id, is
//! excluded from statistics.

use vstd::prelude::*;

verus! {

/// Whether the id stands in the filter list: order and duplicates in the list
/// are irrelevant.
pub open spec fn excluded_spec(id: Seq<char>, filter_ids: Seq<String>) -> bool {
    exists|i: int| 0 <= i < filter_ids.len() && #[trigger] filter_ids[i]@ == id
}

/// Returns true exactly when the record with this id is excluded.
pub fn is_excluded(id: &String, filter_ids: &Vec<String>) -> (r: bool)
    ensures
        r == excluded_spec(id@, filter_ids@),
{
    let mut i: usize = 0;
    while i < filter_ids.len()
        invariant
            0 <= i <= filter_ids@.len(),
            forall|k: int| 0 <= k < i ==> #[trigger] filter_ids@[k]@ != id@,
        decreases filter_ids@.len() - i,
    {
        if filter_ids[i].eq(id) {
            return true;
        }
        i = i + 1;
    }
    false
}

} // verus!
