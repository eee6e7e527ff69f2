use seqstats::stats::SequenceStatistics;

#[test]
fn empty_sequence_is_all_zero() {
    let s = SequenceStatistics::new(b"");
    assert_eq!(s.len, 0);
    assert_eq!(s.hoco_len, 0);
    assert_eq!(s.len_without_ns, 0);
    assert_eq!(s.hoco_len_without_ns, 0);
}

#[test]
fn masked_runs_scenario() {
    let s = SequenceStatistics::new(b"AAANNNTT");
    assert_eq!(s.len, 8);
    assert_eq!(s.hoco_len, 3);
    assert_eq!(s.len_without_ns, 5);
    assert_eq!(s.hoco_len_without_ns, 2);
}

#[test]
fn no_masked_characters_keep_lengths_equal() {
    let s = SequenceStatistics::new(b"ACGTACGT");
    assert_eq!(s.len, 8);
    assert_eq!(s.len_without_ns, s.len);
    assert_eq!(s.hoco_len_without_ns, s.hoco_len);
}

#[test]
fn uniform_sequence_has_single_run() {
    let s = SequenceStatistics::new(b"AAAAAAAAAAAA");
    assert_eq!(s.len, 12);
    assert_eq!(s.hoco_len, 1);
    let t = SequenceStatistics::new(b"GG");
    assert_eq!(t.len, 2);
    assert_eq!(t.hoco_len, 1);
}

#[test]
fn line_breaks_are_skipped() {
    let s = SequenceStatistics::new(b"AC\nGT\n");
    assert_eq!(s.len, 4);
    assert_eq!(s.hoco_len, 4);
    let t = SequenceStatistics::new(b"GTGCTAGCGGGCC\nNCCCTTTTTTTTTTTT");
    assert_eq!(t.len, 29);
    assert_eq!(t.len_without_ns, 28);
}

#[test]
fn upper_and_lower_masked_form_two_runs() {
    let s = SequenceStatistics::new(b"Nn");
    assert_eq!(s.len, 2);
    assert_eq!(s.hoco_len, 2);
    assert_eq!(s.len_without_ns, 0);
    assert_eq!(s.hoco_len_without_ns, 0);
}
