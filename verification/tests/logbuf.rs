use node_manager::logbuf::{joined_log_text, LogBuffer, MAX_LOG_SIZE};

fn line_of(len: usize, fill: u8) -> String {
    String::from_utf8(vec![fill; len]).unwrap()
}

#[test]
fn append_keeps_short_log_intact() {
    let mut log = LogBuffer::new();
    log.append_record("hello");
    log.append_record("world");
    assert_eq!(log.as_bytes().as_slice(), b"hello\nworld\n");
    assert_eq!(log.size(), 12);
}

#[test]
fn trim_caps_size_and_keeps_record_suffix() {
    // Build the full pre-trim stream alongside the buffer, then check the
    // kept content against it.
    let mut log = LogBuffer::new();
    let mut stream: Vec<u8> = Vec::new();
    let line = line_of(1000, b'a');
    while stream.len() <= MAX_LOG_SIZE {
        log.append_record(&line);
        stream.extend_from_slice(line.as_bytes());
        stream.push(b'\n');
    }
    let kept = log.as_bytes();
    assert!(kept.len() <= MAX_LOG_SIZE);
    // The kept bytes are a suffix of the pre-trim stream.
    let k = stream.len() - kept.len();
    assert_eq!(&stream[k..], kept.as_slice());
    // The suffix starts right after a newline, never inside a record.
    assert!(k == 0 || stream[k - 1] == b'\n');
    // Something was trimmed, and whole records at that.
    assert!(k > 0 && k % 1001 == 0);
}

#[test]
fn from_bytes_trims_at_record_boundary() {
    // A stream one record past the cap: the first record must go, and the
    // trim also discards the record that straddles the excess boundary.
    let mut stream: Vec<u8> = Vec::new();
    let n = 1000usize;
    let rec = 1001usize;
    while stream.len() < MAX_LOG_SIZE + rec {
        let fill = b'a' + ((stream.len() / rec) % 26) as u8;
        stream.extend_from_slice(line_of(n, fill).as_bytes());
        stream.push(b'\n');
    }
    let log = LogBuffer::from_bytes(stream.clone());
    let kept = log.as_bytes();
    assert!(kept.len() <= MAX_LOG_SIZE);
    // The first newline from one byte before the excess point marks the cut.
    let from = stream.len() - MAX_LOG_SIZE - 1;
    let j = (from..stream.len())
        .find(|&i| stream[i] == b'\n')
        .unwrap();
    assert_eq!(kept.as_slice(), &stream[j + 1..]);
}

#[test]
fn boundary_at_cap_keeps_exactly_the_cap() {
    // Two-byte records put a record boundary exactly at the excess point:
    // the kept suffix is then exactly the cap's worth, with no extra record
    // discarded.
    let records = MAX_LOG_SIZE / 2 + 3;
    let mut stream: Vec<u8> = Vec::with_capacity(records * 2);
    for _ in 0..records {
        stream.push(b'x');
        stream.push(b'\n');
    }
    let log = LogBuffer::from_bytes(stream.clone());
    let kept = log.as_bytes();
    assert_eq!(kept.len(), MAX_LOG_SIZE);
    assert_eq!(kept.as_slice(), &stream[stream.len() - MAX_LOG_SIZE..]);
}

#[test]
fn from_bytes_without_newline_past_cap_clears() {
    // One giant record over the cap with no newline after the excess point:
    // nothing can be kept whole.
    let huge = vec![b'x'; MAX_LOG_SIZE + 5];
    let log = LogBuffer::from_bytes(huge);
    assert_eq!(log.size(), 0);
}

#[test]
fn joined_text_drops_final_newline_only() {
    assert_eq!(joined_log_text(&b"a\nb\n".to_vec()), b"a\nb".to_vec());
    assert_eq!(joined_log_text(&b"a\nb".to_vec()), b"a\nb".to_vec());
    assert_eq!(joined_log_text(&Vec::new()), Vec::<u8>::new());
}
