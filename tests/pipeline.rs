use std::io::Write;

use fanzha_log_query::chunk::ChunkBuffer;
use fanzha_log_query::domain::DomainMatcher;
use fanzha_log_query::ip::IPMatcher;
use fanzha_log_query::pipeline::sum_counts;
use fanzha_log_query::processor::FileProcessor;

fn gz(text: &[u8]) -> Vec<u8> {
    let mut e = flate2::write::GzEncoder::new(Vec::new(), flate2::Compression::default());
    e.write_all(text).unwrap();
    e.finish().unwrap()
}

#[test]
fn sum_counts_adds_and_detects_overflow() {
    assert_eq!(sum_counts(&[]), Some(0));
    assert_eq!(sum_counts(&[1, 2, 3]), Some(6));
    assert_eq!(sum_counts(&[usize::MAX, 0]), Some(usize::MAX));
    assert_eq!(sum_counts(&[usize::MAX, 1]), None);
}

#[test]
fn counts_add_up_for_any_worker_split() {
    let p = FileProcessor::new(IPMatcher::new(&["10.0.0.0/8".to_string()]).unwrap(), DomainMatcher::new(&[]));
    let files: Vec<Vec<u8>> = vec![
        gz(b"10.0.0.1|a\n11.0.0.1|b\n"),
        gz(b"10.2.3.4|c\n10.2.3.5|d\n10.9.9.9|e\n"),
        b"not gzip".to_vec(),
        gz(b""),
        gz(b"10.1.1.1|f\n"),
    ];
    let single: usize = files
        .iter()
        .map(|f| p.process_aggregated_data(f, &mut ChunkBuffer::new()).unwrap_or(0))
        .sum();
    assert_eq!(single, 5);
    for workers in 1..=4usize {
        let mut totals = vec![0usize; workers];
        for (i, f) in files.iter().enumerate() {
            let w = (i * 7 + workers) % workers;
            totals[w] += p.process_aggregated_data(f, &mut ChunkBuffer::new()).unwrap_or(0);
        }
        assert_eq!(sum_counts(&totals), Some(single));
    }
}
