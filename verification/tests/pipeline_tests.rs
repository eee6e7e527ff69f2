use seq_io::fasta::{Reader, Record};
use seqstats::distribution::DistributionSet;
use seqstats::process_record;
use seqstats::report::compute_report;

#[test]
fn test() {
    let fasta = b">1\nAAAGCGCTNNNNNTTCGAGGA\n>2\nGTGCTAGCGGGCC\nNCCCTTTTTTTTTTTT\n>3\nACGCTTATG\n>4\nGCTAACTGAGNNNNAAATTTCGGG\n>5\nAAAGGGCCTTCC\n";
    let mut reader = Reader::new(&fasta[..]);
    let mut distributions = DistributionSet::new();
    let filter_ids: Vec<String> = Vec::new();
    while let Some(record) = reader.next() {
        let record = record.unwrap();
        let id = record.id().unwrap().to_owned();
        process_record(&mut distributions, &id, record.seq(), &filter_ids);
    }
    let report = compute_report(&mut distributions, &vec![90u8]).unwrap();
    assert_eq!(report.record_count, 5);
    assert!(report.body.is_some());
}
