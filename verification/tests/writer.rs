use line_split::error::SplitterError;
use line_split::line::{next_line_end, Handoff, Line, SplitReader};
use line_split::splitter::Splitter;
use line_split::writer::{SplitWriter, WriterAction, WriterState};

fn splitter(budget: u32) -> Splitter {
    Splitter { chunk_size: budget, read: String::from("src"), write_dir: String::from("out") }
}

fn line(bytes: &[u8]) -> Line {
    Line::new(bytes.to_vec(), bytes.len())
}

#[test]
fn line_record_holds_bytes_and_size() {
    let l = line(b"hello\n");
    assert_eq!(l.size(), 6);
    assert_eq!(l.as_bytes(), b"hello\n");
    assert!(!l.is_sentinel());
    let s = Line::sentinel();
    assert_eq!(s.size(), 0);
    assert!(s.is_sentinel());
    assert!(line(b"").is_sentinel());
}

#[test]
fn reader_cuts_lines_and_ends_with_sentinel() {
    let records = SplitReader::new(b"ab\n\ncd".to_vec()).stream();
    let bytes: Vec<Vec<u8>> = records.iter().map(|r| r.as_bytes().to_vec()).collect();
    assert_eq!(bytes, vec![b"ab\n".to_vec(), b"\n".to_vec(), b"cd".to_vec(), Vec::new()]);
    assert_eq!(records[0].size(), 3);
    assert!(records[3].is_sentinel());
}

#[test]
fn reader_of_empty_source_gives_only_the_sentinel() {
    let records = SplitReader::new(Vec::new()).stream();
    assert_eq!(records.len(), 1);
    assert!(records[0].is_sentinel());
}

#[test]
fn reader_keeps_carriage_returns() {
    let records = SplitReader::new(b"a\r\nb\r\n".to_vec()).stream();
    assert_eq!(records.len(), 3);
    assert_eq!(records[0].as_bytes(), b"a\r\n");
    assert_eq!(records[1].as_bytes(), b"b\r\n");
}

#[test]
fn line_end_is_behind_the_line_feed_or_at_the_end() {
    assert_eq!(next_line_end(b"ab\ncd", 0), 3);
    assert_eq!(next_line_end(b"ab\ncd", 2), 3);
    assert_eq!(next_line_end(b"ab\ncd", 3), 5);
    assert_eq!(next_line_end(b"\n\n", 0), 1);
    assert_eq!(next_line_end(b"\n\n", 1), 2);
}

#[test]
fn writer_walks_through_its_states() {
    let s = splitter(4);
    let mut w = SplitWriter::new(&s);
    assert_eq!(w.state(), WriterState::AwaitingFirst);
    assert_eq!(w.file_num(), 0);
    assert!(w.is_active());
    assert!(matches!(w.accept_line(&line(b"a\n")), Ok(WriterAction::Open { file_num: 1 })));
    assert_eq!(w.state(), WriterState::Writing);
    assert!(matches!(w.accept_line(&line(b"b\n")), Ok(WriterAction::Append)));
    assert!(matches!(w.accept_line(&line(b"c\n")), Ok(WriterAction::Roll { file_num: 2 })));
    assert_eq!(w.file_num(), 2);
    assert!(matches!(w.accept_line(&line(b"def\n")), Ok(WriterAction::Roll { file_num: 3 })));
    assert!(matches!(w.accept_line(&line(b"\n")), Ok(WriterAction::Roll { file_num: 4 })));
    assert!(matches!(w.accept_line(&Line::sentinel()), Ok(WriterAction::Finish { files: 4 })));
    assert_eq!(w.state(), WriterState::Done);
    assert!(!w.is_active());
}

#[test]
fn writer_finishes_without_files_on_an_empty_stream() {
    let s = splitter(4);
    let mut w = SplitWriter::new(&s);
    assert!(matches!(
        w.accept(&Handoff::Record(Line::sentinel())),
        Ok(WriterAction::Finish { files: 0 })
    ));
    assert_eq!(w.state(), WriterState::Done);
}

#[test]
fn writer_fails_on_a_line_longer_than_the_budget() {
    let s = splitter(4);
    let mut w = SplitWriter::new(&s);
    assert!(matches!(w.accept_line(&line(b"ab\n")), Ok(WriterAction::Open { file_num: 1 })));
    assert!(matches!(
        w.accept_line(&line(b"abcd\n")),
        Err(SplitterError::ChunkTooLarge { size: 5, budget: 4 })
    ));
    assert_eq!(w.state(), WriterState::Failed);
    assert!(!w.is_active());
    assert_eq!(w.file_num(), 1);
}

#[test]
fn writer_reports_a_broken_stream() {
    let s = splitter(4);
    let mut w = SplitWriter::new(&s);
    assert!(matches!(
        w.accept(&Handoff::Record(line(b"ab\n"))),
        Ok(WriterAction::Open { file_num: 1 })
    ));
    match w.accept(&Handoff::Failure(String::from("reader died"))) {
        Err(SplitterError::StreamDisconnected(reason)) => assert_eq!(reason, "reader died"),
        other => panic!("unexpected result {:?}", other),
    }
    assert_eq!(w.state(), WriterState::Failed);
    let mut first = SplitWriter::new(&s);
    let e = first.fail(&String::from("closed"));
    assert_eq!(e.message(), "the stream of lines broke off before its end: closed");
    assert_eq!(first.state(), WriterState::Failed);
}

#[test]
fn error_messages() {
    assert_eq!(
        SplitterError::ChunkTooLarge { size: 4294967296, budget: 4294967295 }.message(),
        "line size 4294967296 exceeds maximum allowed chunk size 4294967295"
    );
    assert_eq!(
        SplitterError::ChunkTooLarge { size: 1, budget: 0 }.message(),
        "line size 1 exceeds maximum allowed chunk size 0"
    );
    assert_eq!(
        SplitterError::SourceIO(String::from("gone")).message(),
        "reading the source failed: gone"
    );
    assert_eq!(
        SplitterError::SinkIO(String::from("full")).message(),
        "writing the output failed: full"
    );
}

#[test]
fn reader_hands_on_lines_then_the_sentinel() {
    match Handoff::after_read(Ok(b"ab\n".to_vec())) {
        (Handoff::Record(l), more) => {
            assert_eq!(l.as_bytes(), b"ab\n");
            assert_eq!(l.size(), 3);
            assert!(more);
        },
        other => panic!("unexpected handoff {:?}", other),
    }
    match Handoff::after_read(Ok(Vec::new())) {
        (Handoff::Record(l), more) => {
            assert!(l.is_sentinel());
            assert!(!more);
        },
        other => panic!("unexpected handoff {:?}", other),
    }
    match Handoff::after_read(Err(String::from("disk gone"))) {
        (Handoff::Failure(reason), more) => {
            assert_eq!(reason, "disk gone");
            assert!(!more);
        },
        other => panic!("unexpected handoff {:?}", other),
    }
}
