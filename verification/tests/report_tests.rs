use seqstats::distribution::DistributionSet;
use seqstats::process_record;
use seqstats::report::{compute_report, Report, StatsError, VariantReport};

fn feed(distributions: &mut DistributionSet, id: &str, sequence: &[u8], filter_ids: &Vec<String>) -> bool {
    process_record(distributions, &id.to_owned(), sequence, filter_ids)
}

fn entries_of(variant: &VariantReport) -> Vec<(u8, usize)> {
    variant.nx_entries.iter().map(|e| (e.percentile, e.value)).collect()
}

#[test]
fn filtering_excludes_listed_ids() {
    let mut distributions = DistributionSet::new();
    let filter_ids = vec!["b".to_owned()];
    assert!(!feed(&mut distributions, "a", b"AAAA", &filter_ids));
    assert!(feed(&mut distributions, "b", b"CCCCCCCC", &filter_ids));
    assert!(!feed(&mut distributions, "c", b"GG", &filter_ids));
    assert_eq!(distributions.record_count(), 2);
    let report = compute_report(&mut distributions, &Vec::new()).unwrap();
    assert_eq!(report.record_count, 2);
}

#[test]
fn zero_records_report_only_the_count() {
    let mut distributions = DistributionSet::new();
    let report = compute_report(&mut distributions, &Vec::new()).unwrap();
    assert_eq!(report.record_count, 0);
    assert!(report.body.is_none());
}

#[test]
fn invalid_percentile_is_rejected() {
    let mut distributions = DistributionSet::new();
    let result = compute_report(&mut distributions, &vec![90u8, 101u8]);
    assert!(matches!(result, Err(StatsError::PercentileOutOfRange(101))));
}

#[test]
fn report_fields_for_known_records() {
    let mut distributions = DistributionSet::new();
    let filter_ids = Vec::new();
    feed(&mut distributions, "first", b"AAANNNTT", &filter_ids);
    feed(&mut distributions, "second", b"ACGT", &filter_ids);
    let report = compute_report(&mut distributions, &vec![90u8]).unwrap();
    assert_eq!(report.record_count, 2);
    let body = report.body.unwrap();

    assert_eq!(body.raw.masked_count, 3);
    assert_eq!(body.raw.with_masked.total_length, 12);
    assert_eq!(entries_of(&body.raw.with_masked), vec![(50, 8), (75, 4), (90, 4)]);
    assert_eq!(body.raw.with_masked.max_len, 8);
    assert_eq!(body.raw.with_masked.min_len, 4);
    assert_eq!(body.raw.without_masked.total_length, 9);
    assert_eq!(entries_of(&body.raw.without_masked), vec![(50, 5), (75, 4), (90, 4)]);
    assert_eq!(body.raw.without_masked.max_len, 5);
    assert_eq!(body.raw.without_masked.min_len, 4);

    assert_eq!(body.hoco.masked_count, 1);
    assert_eq!(body.hoco.with_masked.total_length, 7);
    assert_eq!(entries_of(&body.hoco.with_masked), vec![(50, 4), (75, 3), (90, 3)]);
    assert_eq!(body.hoco.with_masked.max_len, 4);
    assert_eq!(body.hoco.with_masked.min_len, 3);
    assert_eq!(body.hoco.without_masked.total_length, 6);
    assert_eq!(entries_of(&body.hoco.without_masked), vec![(50, 4), (75, 4), (90, 2)]);
    assert_eq!(body.hoco.without_masked.max_len, 4);
    assert_eq!(body.hoco.without_masked.min_len, 2);
}

#[test]
fn zero_length_records_count_but_never_answer_nx() {
    let mut distributions = DistributionSet::new();
    let filter_ids: Vec<String> = Vec::new();
    feed(&mut distributions, "empty", b"", &filter_ids);
    feed(&mut distributions, "real", b"ACGTT", &filter_ids);
    let report = compute_report(&mut distributions, &vec![100u8]).unwrap();
    assert_eq!(report.record_count, 2);
    let body = report.body.unwrap();
    assert_eq!(body.raw.with_masked.total_length, 5);
    assert_eq!(entries_of(&body.raw.with_masked), vec![(50, 5), (75, 5), (100, 5)]);
    assert_eq!(body.raw.with_masked.max_len, 5);
    assert_eq!(body.raw.with_masked.min_len, 0);
}

fn run_once() -> Report {
    let mut distributions = DistributionSet::new();
    let filter_ids = vec!["skipped".to_owned()];
    feed(&mut distributions, "one", b"GGGCCNNTTA", &filter_ids);
    feed(&mut distributions, "skipped", b"AAAA", &filter_ids);
    feed(&mut distributions, "two", b"TTTnnACGT\nACG", &filter_ids);
    compute_report(&mut distributions, &vec![10u8, 90u8]).unwrap()
}

fn assert_variants_equal(a: &VariantReport, b: &VariantReport) {
    assert_eq!(a.total_length, b.total_length);
    assert_eq!(entries_of(a), entries_of(b));
    assert_eq!(a.max_len, b.max_len);
    assert_eq!(a.min_len, b.min_len);
}

#[test]
fn identical_runs_give_identical_reports() {
    let first = run_once();
    let second = run_once();
    assert_eq!(first.record_count, second.record_count);
    let body_a = first.body.unwrap();
    let body_b = second.body.unwrap();
    assert_eq!(body_a.raw.masked_count, body_b.raw.masked_count);
    assert_eq!(body_a.hoco.masked_count, body_b.hoco.masked_count);
    assert_variants_equal(&body_a.raw.with_masked, &body_b.raw.with_masked);
    assert_variants_equal(&body_a.raw.without_masked, &body_b.raw.without_masked);
    assert_variants_equal(&body_a.hoco.with_masked, &body_b.hoco.with_masked);
    assert_variants_equal(&body_a.hoco.without_masked, &body_b.hoco.without_masked);
}
