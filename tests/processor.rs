use std::io::Write;

use fanzha_log_query::chunk::ChunkBuffer;
use fanzha_log_query::domain::DomainMatcher;
use fanzha_log_query::ip::IPMatcher;
use fanzha_log_query::processor::{DecodeError, FileProcessor, LogKind};

fn rules(v: &[&str]) -> Vec<String> {
    v.iter().map(|s| s.to_string()).collect()
}

fn processor(ips: &[&str], domains: &[&str]) -> FileProcessor {
    FileProcessor::new(IPMatcher::new(&rules(ips)).unwrap(), DomainMatcher::new(&rules(domains)))
}

fn gz(text: &[u8]) -> Vec<u8> {
    let mut e = flate2::write::GzEncoder::new(Vec::new(), flate2::Compression::default());
    e.write_all(text).unwrap();
    e.finish().unwrap()
}

fn drain(buf: &mut ChunkBuffer) -> Vec<u8> {
    buf.flush();
    buf.take_ready().concat()
}

#[test]
fn aggregated_end_to_end_one_match() {
    let p = processor(&["10.1.2.0/24"], &["*.example.com"]);
    let data = gz(b"10.1.2.3|a.example.com|...\n10.1.2.4|b.other.com|...\n");
    let mut out = ChunkBuffer::new();
    assert_eq!(p.process_aggregated_data(&data, &mut out), Ok(1));
    assert_eq!(drain(&mut out), b"10.1.2.3|a.example.com|...\n".to_vec());
}

#[test]
fn empty_rules_keep_every_nonempty_line() {
    let p = processor(&[], &[]);
    let a = gz(b"x|y\n\nsecond line\r\n\r\nthird");
    let b = gz(b"\n\nonly\n");
    let mut out = ChunkBuffer::new();
    let n1 = p.process_aggregated_data(&a, &mut out).unwrap();
    let n2 = p.process_aggregated_data(&b, &mut out).unwrap();
    assert_eq!(n1 + n2, 4);
    assert_eq!(drain(&mut out), b"x|y\nsecond line\nthird\nonly\n".to_vec());
}

#[test]
fn native_schema_uses_fields_four_and_seven() {
    let p = processor(&["10.0.0.1"], &["a.com"]);
    let hit = b"0|1|2|3|10.0.0.1|5|6|a.com|8";
    let wrong_domain = b"0|1|2|3|10.0.0.1|5|6|b.com|8";
    let short = b"0|1|2|3|10.0.0.1|5";
    let mut text = Vec::new();
    for l in [&hit[..], &wrong_domain[..], &short[..]] {
        text.extend_from_slice(l);
        text.push(b'\n');
    }
    let mut out = ChunkBuffer::new();
    assert_eq!(p.process_native_data(&gz(&text), &mut out), Ok(1));
    assert_eq!(drain(&mut out), [&hit[..], b"\n"].concat());
    let mut out2 = ChunkBuffer::new();
    assert_eq!(p.process_data(&gz(&text), LogKind::Aggregated, &mut out2), Ok(0));
}

#[test]
fn multi_member_gzip_is_read_whole() {
    let p = processor(&[], &["*.x.com"]);
    let mut data = gz(b"1|a.x.com\n2|b.y.com\n");
    data.extend(gz(b"3|c.x.com\n"));
    let mut out = ChunkBuffer::new();
    assert_eq!(p.process_aggregated_data(&data, &mut out), Ok(2));
    assert_eq!(drain(&mut out), b"1|a.x.com\n3|c.x.com\n".to_vec());
}

#[test]
fn undecodable_file_is_an_error_and_adds_nothing() {
    let p = processor(&[], &[]);
    let mut out = ChunkBuffer::new();
    assert_eq!(p.process_aggregated_data(b"plain text, not gzip", &mut out), Err(DecodeError));
    assert!(drain(&mut out).is_empty());
}

#[test]
fn check_line_filters_and_missing_fields() {
    let p = processor(&["10.0.0.1"], &["a.com"]);
    assert!(p.check_line(b"10.0.0.1|a.com|z", 0, 1));
    assert!(p.check_line(b"10.0.0.1|a.com", 0, 1));
    assert!(!p.check_line(b"10.0.0.1|b.com", 0, 1));
    assert!(!p.check_line(b"10.0.0.2|a.com", 0, 1));
    assert!(!p.check_line(b"10.0.0.1", 0, 1));
    // The domain field is the text between separators, never the rest of the line.
    let q = processor(&["10.0.0.1"], &["a.com|x"]);
    assert!(!q.check_line(b"10.0.0.1|a.com|x", 0, 1));
}

#[test]
fn check_line_single_filter() {
    let ip_only = processor(&["1.1.1.1"], &[]);
    assert!(ip_only.check_line(b"x|y|1.1.1.1", 2, 0));
    assert!(!ip_only.check_line(b"x|y", 2, 0));
    let dom_only = processor(&[], &["d"]);
    assert!(dom_only.check_line(b"d", 4, 0));
    assert!(!dom_only.check_line(b"e|d", 4, 0));
    let none = processor(&[], &[]);
    assert!(none.check_line(b"", 4, 7));
}

#[test]
fn process_records_counts_and_frames() {
    let p = processor(&[], &["b"]);
    let mut out = ChunkBuffer::new();
    let n = p.process_records(b"1|b\r\n2|c\n3|b", 0, 1, &mut out);
    assert_eq!(n, 2);
    assert_eq!(drain(&mut out), b"1|b\n3|b\n".to_vec());
}

#[test]
fn log_kind_schema() {
    assert_eq!((LogKind::Aggregated.ip_index(), LogKind::Aggregated.domain_index()), (0, 1));
    assert_eq!((LogKind::Native.ip_index(), LogKind::Native.domain_index()), (4, 7));
}
