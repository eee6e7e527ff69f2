//! Per-sequence statistics: a single forward pass over one record's bytes
//! yields the raw length, the homopolymer-compressed length, and both lengths
//! with masked bases excluded.

use vstd::prelude::*;

verus! {

/// The byte value of a line break ('\n').
pub const LINE_BREAK: u8 = 10;

/// The byte value of an upper-case masked base ('N').
pub const MASKED_UPPER: u8 = 78;

/// The byte value of a lower-case masked base ('n').
pub const MASKED_LOWER: u8 = 110;

/// A line-break byte; such bytes are parsing artifacts of multi-line record
/// formats and contribute to none of the four counts.
pub open spec fn is_line_break(b: u8) -> bool {
    b == LINE_BREAK
}

/// A masked (ambiguous) base: 'N' or 'n', case-insensitively.
pub open spec fn is_masked(b: u8) -> bool {
    b == MASKED_UPPER || b == MASKED_LOWER
}

/// The bytes of a sequence that count: the sequence with line breaks removed.
pub open spec fn counted_bytes(s: Seq<u8>) -> Seq<u8>
    decreases s.len(),
{
    if s.len() == 0 {
        Seq::empty()
    } else if is_line_break(s.last()) {
        counted_bytes(s.drop_last())
    } else {
        counted_bytes(s.drop_last()).push(s.last())
    }
}

/// Number of masked bytes in a sequence.
pub open spec fn masked_count(s: Seq<u8>) -> nat
    decreases s.len(),
{
    if s.len() == 0 {
        0
    } else if is_masked(s.last()) {
        masked_count(s.drop_last()) + 1
    } else {
        masked_count(s.drop_last())
    }
}

/// Number of maximal runs of identical consecutive bytes: the
/// homopolymer-compressed (run-length-encoded) length.
pub open spec fn run_count(s: Seq<u8>) -> nat
    decreases s.len(),
{
    if s.len() == 0 {
        0
    } else if s.len() == 1 {
        1
    } else if s.last() != s[s.len() - 2] {
        run_count(s.drop_last()) + 1
    } else {
        run_count(s.drop_last())
    }
}

/// Number of maximal runs whose representative byte is masked. Run boundaries
/// are decided by exact byte inequality, so 'N' followed by 'n' forms two
/// runs, both masked.
pub open spec fn masked_run_count(s: Seq<u8>) -> nat
    decreases s.len(),
{
    if s.len() == 0 {
        0
    } else if s.len() == 1 {
        if is_masked(s.last()) {
            1
        } else {
            0
        }
    } else if s.last() != s[s.len() - 2] && is_masked(s.last()) {
        masked_run_count(s.drop_last()) + 1
    } else {
        masked_run_count(s.drop_last())
    }
}

/// The four length statistics extracted from one sequence record.
pub struct SequenceStatistics {
    /// Count of non-line-break bytes.
    pub len: usize,
    /// Count of maximal runs of identical consecutive bytes.
    pub hoco_len: usize,
    /// `len` minus the number of masked bytes.
    pub len_without_ns: usize,
    /// `hoco_len` minus the number of masked runs.
    pub hoco_len_without_ns: usize,
}

impl SequenceStatistics {
    /// The four fields are exactly the statistics of the given byte sequence.
    pub open spec fn matches(self, s: Seq<u8>) -> bool {
        let t = counted_bytes(s);
        &&& self.len == t.len()
        &&& self.hoco_len == run_count(t)
        &&& self.len_without_ns == t.len() - masked_count(t)
        &&& self.hoco_len_without_ns == run_count(t) - masked_run_count(t)
    }

    /// Structural bounds every extracted statistic satisfies.
    pub open spec fn wf(self) -> bool {
        &&& self.hoco_len <= self.len
        &&& self.len_without_ns <= self.len
        &&& self.hoco_len_without_ns <= self.hoco_len
    }

    /// Extracts the four statistics in one forward pass, skipping line breaks.
    pub fn new(sequence: &[u8]) -> (r: Self)
        ensures
            r.matches(sequence@),
            r.wf(),
    {
        let ghost full = sequence@;
        let mut len: usize = 0;
        let mut hoco_len: usize = 0;
        let mut ns: usize = 0;
        let mut hoco_ns: usize = 0;
        let mut last_byte: u8 = 0;
        let mut i: usize = 0;
        while i < sequence.len()
            invariant
                0 <= i <= full.len(),
                sequence@ == full,
                len <= i,
                ns <= len,
                hoco_len <= len,
                hoco_ns <= hoco_len,
                len == counted_bytes(full.subrange(0, i as int)).len(),
                ns == masked_count(counted_bytes(full.subrange(0, i as int))),
                hoco_len == run_count(counted_bytes(full.subrange(0, i as int))),
                hoco_ns == masked_run_count(counted_bytes(full.subrange(0, i as int))),
                len > 0 ==> last_byte == counted_bytes(full.subrange(0, i as int)).last(),
            decreases full.len() - i,
        {
            let byte = sequence[i];
            proof {
                let prev = full.subrange(0, i as int);
                let cur = full.subrange(0, i + 1 as int);
                assert(cur.drop_last() =~= prev);
                assert(cur.last() == byte);
                if !is_line_break(byte) {
                    assert(counted_bytes(cur) =~= counted_bytes(prev).push(byte));
                } else {
                    assert(counted_bytes(cur) =~= counted_bytes(prev));
                }
            }
            if byte != LINE_BREAK {
                len = len + 1;
                if byte == MASKED_UPPER || byte == MASKED_LOWER {
                    ns = ns + 1;
                }
                if len == 1 {
                    hoco_len = 1;
                    last_byte = byte;
                    if byte == MASKED_UPPER || byte == MASKED_LOWER {
                        hoco_ns = 1;
                    }
                } else if byte != last_byte {
                    hoco_len = hoco_len + 1;
                    last_byte = byte;
                    if byte == MASKED_UPPER || byte == MASKED_LOWER {
                        hoco_ns = hoco_ns + 1;
                    }
                }
                proof {
                    let t = counted_bytes(full.subrange(0, i + 1 as int));
                    assert(t.drop_last() =~= counted_bytes(full.subrange(0, i as int)));
                }
            }
            i = i + 1;
        }
        proof {
            assert(full.subrange(0, full.len() as int) =~= full);
        }
        SequenceStatistics { len, hoco_len, len_without_ns: len - ns, hoco_len_without_ns: hoco_len - hoco_ns }
    }
}

/// Structural bounds of the statistics of any byte sequence: run counts never
/// exceed byte counts, masked-run counts never exceed run counts, and the run
/// count is zero exactly when the sequence is empty.
pub proof fn lemma_statistics_bounds(s: Seq<u8>)
    ensures
        masked_count(s) <= s.len(),
        run_count(s) <= s.len(),
        masked_run_count(s) <= run_count(s),
        run_count(s) == 0 <==> s.len() == 0,
    decreases s.len(),
{
    if s.len() > 0 {
        lemma_statistics_bounds(s.drop_last());
    }
}

/// For any sequence, `hoco_len <= len`, `len_without_ns <= len` and
/// `hoco_len_without_ns <= hoco_len`, and all four statistics are zero exactly
/// when the sequence holds no counted (non-line-break) bytes.
pub proof fn lemma_statistics_invariant(stats: SequenceStatistics, s: Seq<u8>)
    requires
        stats.matches(s),
    ensures
        stats.wf(),
        (stats.len == 0 && stats.hoco_len == 0 && stats.len_without_ns == 0
            && stats.hoco_len_without_ns == 0) <==> counted_bytes(s).len() == 0,
{
    lemma_statistics_bounds(counted_bytes(s));
}

/// A sequence without line breaks counts as itself.
pub proof fn lemma_counted_bytes_identity(s: Seq<u8>)
    requires
        forall|i: int| 0 <= i < s.len() ==> !is_line_break(s[i]),
    ensures
        counted_bytes(s) == s,
    decreases s.len(),
{
    if s.len() > 0 {
        lemma_counted_bytes_identity(s.drop_last());
        assert(counted_bytes(s) =~= s);
    } else {
        assert(counted_bytes(s) =~= s);
    }
}

/// Removing line breaks keeps every counted byte unmasked if the whole
/// sequence holds no masked byte.
proof fn lemma_counted_bytes_no_masked(s: Seq<u8>)
    requires
        forall|i: int| 0 <= i < s.len() ==> !is_masked(s[i]),
    ensures
        forall|i: int| 0 <= i < counted_bytes(s).len() ==> !is_masked(counted_bytes(s)[i]),
    decreases s.len(),
{
    if s.len() > 0 {
        assert(forall|i: int| 0 <= i < s.drop_last().len() ==> !is_masked(#[trigger] s.drop_last()[i]));
        lemma_counted_bytes_no_masked(s.drop_last());
        let t = counted_bytes(s);
        let u = counted_bytes(s.drop_last());
        if !is_line_break(s.last()) {
            assert(!is_masked(s[s.len() - 1]));
            assert(forall|i: int| 0 <= i < t.len() ==> !is_masked(#[trigger] t[i])) by {
                assert(forall|i: int| 0 <= i < u.len() ==> #[trigger] t[i] == u[i]);
                assert(t[t.len() - 1] == s.last());
            }
        }
    }
}

/// A sequence without masked bytes has zero masked counts.
pub proof fn lemma_no_masked_counts(s: Seq<u8>)
    requires
        forall|i: int| 0 <= i < s.len() ==> !is_masked(s[i]),
    ensures
        masked_count(s) == 0,
        masked_run_count(s) == 0,
    decreases s.len(),
{
    if s.len() > 0 {
        lemma_no_masked_counts(s.drop_last());
    }
}

/// For a sequence with no masked bytes, the with- and without-Ns statistics
/// coincide: `len_without_ns == len` and `hoco_len_without_ns == hoco_len`.
pub proof fn lemma_statistics_no_masked(stats: SequenceStatistics, s: Seq<u8>)
    requires
        stats.matches(s),
        forall|i: int| 0 <= i < s.len() ==> !is_masked(s[i]),
    ensures
        stats.len_without_ns == stats.len,
        stats.hoco_len_without_ns == stats.hoco_len,
{
    lemma_counted_bytes_no_masked(s);
    lemma_no_masked_counts(counted_bytes(s));
}

/// A non-empty sequence made of one repeated byte forms a single run:
/// `hoco_len == 1` regardless of `len`.
pub proof fn lemma_uniform_sequence_single_run(s: Seq<u8>)
    requires
        s.len() > 0,
        forall|i: int| 0 <= i < s.len() ==> #[trigger] s[i] == s[0],
    ensures
        run_count(s) == 1,
    decreases s.len(),
{
    if s.len() > 1 {
        lemma_uniform_sequence_single_run(s.drop_last());
    }
}

} // verus!
