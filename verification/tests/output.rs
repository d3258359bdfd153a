use runpy::output::{
    escape_text, output_log_entry, output_record, record_line, DropCounter, LineSplitter, RawLine,
    WorkerOutputStream, MAX_RECORD_BYTES,
};
use runpy::LogLevel;

fn raw(bytes: &[u8], truncated: bool) -> RawLine {
    RawLine { bytes: bytes.to_vec(), truncated }
}

#[test]
fn splitter_cuts_at_newlines_across_chunks() {
    let mut splitter = LineSplitter::new();
    assert_eq!(splitter.push(b"startup st"), vec![]);
    assert_eq!(splitter.push(b"dout\nsecond\n\nthi"), vec![raw(b"startup stdout", false), raw(b"second", false), raw(b"", false)]);
    assert_eq!(splitter.finish(), Some(raw(b"thi", false)));
    assert_eq!(splitter.finish(), None);
}

#[test]
fn long_lines_are_bounded_and_continue() {
    let mut splitter = LineSplitter::new();
    let mut data = vec![b'x'; MAX_RECORD_BYTES * 2 + 5];
    data.push(b'\n');
    let lines = splitter.push(&data);
    assert_eq!(lines.len(), 3);
    assert_eq!(lines[0], RawLine { bytes: vec![b'x'; MAX_RECORD_BYTES], truncated: true });
    assert_eq!(lines[1], RawLine { bytes: vec![b'x'; MAX_RECORD_BYTES], truncated: true });
    assert_eq!(lines[2], RawLine { bytes: vec![b'x'; 5], truncated: false });
}

#[test]
fn exact_bound_followed_by_newline_is_one_record() {
    let mut splitter = LineSplitter::new();
    let mut data = vec![b'y'; MAX_RECORD_BYTES];
    data.push(b'\n');
    assert_eq!(splitter.push(&data), vec![RawLine { bytes: vec![b'y'; MAX_RECORD_BYTES], truncated: false }]);
}

#[test]
fn record_text_is_lossy_and_escaped() {
    assert_eq!(record_line(b"plain\ttext"), "plain\ttext");
    assert_eq!(record_line(b"bell\x07 esc\x1b[0m"), "bell\\u{7} esc\\u{1b}[0m");
    assert_eq!(record_line(b"cr\r"), "cr\\u{d}");
    assert_eq!(record_line(b"bad \xff byte"), "bad \u{fffd} byte");
    assert_eq!(record_line("caf\u{e9} \u{85}".as_bytes()), "caf\u{e9} \\u{85}");
    let chars: Vec<char> = "\u{7f}\u{0}".chars().collect();
    assert_eq!(escape_text(&chars).into_iter().collect::<String>(), "\\u{7f}\\u{0}");
}

#[test]
fn records_are_attributed() {
    let record = output_record("w_1", WorkerOutputStream::Stderr, &raw(b"startup stderr", false), 3);
    assert_eq!(record.worker_id, "w_1");
    assert_eq!(record.line, "startup stderr");
    assert_eq!(record.dropped_lines_before, 3);
    assert!(!record.truncated);
    assert_eq!(output_log_entry(&record), (LogLevel::Warning, "[worker:w_1][stderr] startup stderr".to_string()));
    let out = output_record("w_1", WorkerOutputStream::Stdout, &raw(b"hi", true), 0);
    assert_eq!(output_log_entry(&out), (LogLevel::Info, "[worker:w_1][stdout] hi".to_string()));
    assert!(out.truncated);
}

#[test]
fn dropped_records_are_reported_by_the_next_accepted_one() {
    let mut counter = DropCounter::new();
    let first = counter.take();
    assert_eq!(first, 0);
    counter.refused(first);
    let second = counter.take();
    assert_eq!(second, 1);
    counter.refused(second);
    let third = counter.take();
    assert_eq!(third, 2);
    assert_eq!(counter.take(), 0);
    counter.refused(u64::MAX);
    assert_eq!(counter.take(), u64::MAX);
}
