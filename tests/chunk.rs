use fanzha_log_query::chunk::{ChunkBuffer, CHUNK_FLUSH_BYTES};

#[test]
fn chunk_set_aside_at_threshold() {
    let mut b = ChunkBuffer::with_threshold(8);
    b.push_line(b"abc");
    assert!(b.take_ready().is_empty());
    b.push_line(b"def");
    let ready = b.take_ready();
    assert_eq!(ready, vec![b"abc\ndef\n".to_vec()]);
    b.push_line(b"g");
    b.flush();
    assert_eq!(b.take_ready(), vec![b"g\n".to_vec()]);
    b.flush();
    assert!(b.take_ready().is_empty());
}

#[test]
fn chunk_default_threshold_is_128_kib() {
    assert_eq!(CHUNK_FLUSH_BYTES, 128 * 1024);
    let mut b = ChunkBuffer::new();
    let line = vec![b'x'; 1023];
    for _ in 0..127 {
        b.push_line(&line);
    }
    assert!(b.take_ready().is_empty());
    b.push_line(&line);
    let ready = b.take_ready();
    assert_eq!(ready.len(), 1);
    assert_eq!(ready[0].len(), 128 * 1024);
}

#[test]
fn chunk_keeps_every_byte_in_order() {
    let mut b = ChunkBuffer::with_threshold(5);
    let mut expected = Vec::new();
    let mut got = Vec::new();
    for i in 0..50u8 {
        let line = vec![b'a' + (i % 26); (i % 7) as usize];
        expected.extend_from_slice(&line);
        expected.push(b'\n');
        b.push_line(&line);
        for c in b.take_ready() {
            got.extend(c);
        }
    }
    b.flush();
    for c in b.take_ready() {
        got.extend(c);
    }
    assert_eq!(got, expected);
}
