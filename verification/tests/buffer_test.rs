use korun::clock::Timestamp;
use korun::daemon::buffer::{BufferStats, LogBuffer, LogEntry, Stream};

fn ts() -> Timestamp {
    Timestamp::now()
}

fn lines(entries: &[LogEntry]) -> Vec<String> {
    entries.iter().map(|e| e.line.clone()).collect()
}

fn seqs(entries: &[LogEntry]) -> Vec<u64> {
    entries.iter().map(|e| e.seq).collect()
}

#[test]
fn push_increments_seq() {
    let mut buf = LogBuffer::new(100);
    let s0 = buf.push(Stream::Stdout, "line0".into(), ts());
    let s1 = buf.push(Stream::Stdout, "line1".into(), ts());
    assert_eq!(s0, 0);
    assert_eq!(s1, 1);
    assert_eq!(buf.len(), 2);
}

#[test]
fn push_evicts_oldest_when_full() {
    let mut buf = LogBuffer::new(3);
    buf.push(Stream::Stdout, "a".into(), ts());
    buf.push(Stream::Stdout, "b".into(), ts());
    buf.push(Stream::Stdout, "c".into(), ts());
    buf.push(Stream::Stdout, "d".into(), ts()); // evicts "a"
    assert_eq!(buf.len(), 3);
    assert_eq!(buf.dropped, 1);
    let entries = buf.tail(3);
    assert_eq!(entries[0].line, "b");
    assert_eq!(entries[2].line, "d");
}

#[test]
fn tail_returns_newest_n() {
    let mut buf = LogBuffer::new(100);
    for i in 0..10u64 {
        buf.push(Stream::Stdout, format!("line{i}"), ts());
    }
    let t = buf.tail(3);
    assert_eq!(t.len(), 3);
    assert_eq!(t[0].line, "line7");
    assert_eq!(t[2].line, "line9");
}

#[test]
fn head_returns_oldest_n() {
    let mut buf = LogBuffer::new(100);
    for i in 0..10u64 {
        buf.push(Stream::Stdout, format!("line{i}"), ts());
    }
    let h = buf.head(3);
    assert_eq!(h.len(), 3);
    assert_eq!(h[0].line, "line0");
    assert_eq!(h[2].line, "line2");
}

#[test]
fn since_seq_filters_correctly() {
    let mut buf = LogBuffer::new(100);
    for i in 0..10u64 {
        buf.push(Stream::Stdout, format!("line{i}"), ts());
    }
    let entries = buf.since_seq(5, 100);
    assert_eq!(entries.len(), 5);
    assert_eq!(entries[0].seq, 5);
    assert_eq!(entries[4].seq, 9);
}

#[test]
fn since_seq_respects_limit() {
    let mut buf = LogBuffer::new(100);
    for i in 0..10u64 {
        buf.push(Stream::Stdout, format!("line{i}"), ts());
    }
    let entries = buf.since_seq(0, 3);
    assert_eq!(entries.len(), 3);
}

#[test]
fn total_bytes_counts_stdout_stderr_not_system() {
    let mut buf = LogBuffer::new(100);
    buf.push(Stream::Stdout, "hello".into(), ts()); // 5+1=6
    buf.push(Stream::Stderr, "world".into(), ts()); // 5+1=6
    buf.push(Stream::System, "diag".into(), ts()); // ignored
    assert_eq!(buf.total_bytes, 12);
}

#[test]
fn peek_next_seq_advances() {
    let mut buf = LogBuffer::new(100);
    assert_eq!(buf.peek_next_seq(), 0);
    buf.push(Stream::Stdout, "x".into(), ts());
    assert_eq!(buf.peek_next_seq(), 1);
}

#[test]
fn bytes_are_those_of_utf8() {
    let mut buf = LogBuffer::new(2);
    buf.push(Stream::Stdout, "añ€".into(), ts()); // 1+2+3+1
    assert_eq!(buf.stats(), BufferStats { lines: 1, dropped: 0, bytes: 7 });
    buf.push(Stream::Stdout, String::new(), ts());
    assert_eq!(buf.stats().bytes, 8);
}

#[test]
fn bytes_of_dropped_lines_stay_counted() {
    let mut buf = LogBuffer::new(1);
    buf.push(Stream::Stderr, "abc".into(), ts());
    buf.push(Stream::Stderr, "de".into(), ts());
    assert_eq!(buf.stats(), BufferStats { lines: 1, dropped: 1, bytes: 7 });
    assert_eq!(lines(&buf.tail(5)), vec!["de"]);
}

#[test]
fn lines_keep_the_number_given_from_outside() {
    let mut buf = LogBuffer::new(10);
    buf.push_with_seq(4, Stream::Stdout, "a".into(), ts());
    buf.push_with_seq(9, Stream::Stdout, "b".into(), ts());
    assert_eq!(seqs(&buf.head(10)), vec![4, 9]);
    assert_eq!(buf.peek_next_seq(), 10);
    assert_eq!(buf.push(Stream::Stdout, "c".into(), ts()), 10);
    assert_eq!(seqs(&buf.since_seq(5, 10)), vec![9, 10]);
}

#[test]
fn uncounted_lines_count_no_bytes() {
    let mut buf = LogBuffer::new(2);
    for i in 0..5u64 {
        buf.push_uncounted(i, Stream::Stdout, format!("line{i}"), ts());
    }
    assert_eq!(buf.stats(), BufferStats { lines: 2, dropped: 3, bytes: 0 });
    assert_eq!(lines(&buf.head(9)), vec!["line3", "line4"]);
}

#[test]
fn a_buffer_without_capacity_bounds_nothing() {
    let mut buf = LogBuffer::new(0);
    assert!(buf.is_empty());
    buf.push(Stream::Stdout, "a".into(), ts());
    buf.push(Stream::Stdout, "b".into(), ts());
    assert_eq!(buf.len(), 2);
    assert_eq!(buf.dropped, 1);
    assert!(!buf.is_empty());
}

#[test]
fn limits_of_zero_and_beyond_the_end() {
    let mut buf = LogBuffer::new(5);
    for i in 0..3u64 {
        buf.push(Stream::Stdout, format!("{i}"), ts());
    }
    assert!(buf.tail(0).is_empty());
    assert!(buf.head(0).is_empty());
    assert!(buf.since_seq(0, 0).is_empty());
    assert!(buf.since_seq(3, 9).is_empty());
    assert_eq!(lines(&buf.tail(9)), lines(&buf.head(9)));
}

#[test]
fn newest_lines_stay_and_every_line_is_accounted_for() {
    let mut buf = LogBuffer::new(4);
    let mut bytes = 0;
    for i in 0..50u64 {
        let line = format!("line{i}");
        bytes += line.len() as u64 + 1;
        buf.push(Stream::Stdout, line, ts());
        let stats = buf.stats();
        assert_eq!(stats.lines as u64 + stats.dropped, i + 1);
        assert_eq!(stats.bytes, bytes);
    }
    assert_eq!(seqs(&buf.tail(100)), vec![46, 47, 48, 49]);
}

#[test]
fn head_and_tail_make_up_the_buffer() {
    let mut buf = LogBuffer::new(7);
    for i in 0..20u64 {
        buf.push(Stream::Stdout, format!("{i}"), ts());
    }
    for k in 0..=7usize {
        let mut all = seqs(&buf.head(k));
        all.extend(seqs(&buf.tail(7 - k)));
        assert_eq!(all, vec![13, 14, 15, 16, 17, 18, 19]);
    }
}

#[test]
fn a_reader_resumes_where_it_left() {
    let mut buf = LogBuffer::new(5);
    for i in 0..4u64 {
        buf.push(Stream::Stdout, format!("{i}"), ts());
    }
    let next = buf.peek_next_seq();
    assert!(buf.since_seq(next, 100).is_empty());
    for i in 4..7u64 {
        buf.push(Stream::Stdout, format!("{i}"), ts());
    }
    assert_eq!(seqs(&buf.since_seq(next, 100)), vec![4, 5, 6]);
    assert_eq!(seqs(&buf.since_seq(next, 2)), vec![4, 5]);
    for i in 7..20u64 {
        buf.push(Stream::Stdout, format!("{i}"), ts());
    }
    assert_eq!(seqs(&buf.since_seq(next, 100)), vec![15, 16, 17, 18, 19]);
}
