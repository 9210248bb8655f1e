use std::path::Path;

use line_split::error::SplitterError;
use line_split::splitter::{derive_new_path, new_writer_path, SplitRun, Splitter};

fn splitter(budget: u32) -> Splitter {
    Splitter { chunk_size: budget, read: String::from("data/src"), write_dir: String::from("out") }
}

fn in_out(name: &str) -> String {
    Path::new("out").join(name).to_str().unwrap().to_owned()
}

fn run(source: &[u8], budget: u32) -> SplitRun {
    splitter(budget).split(source.to_vec())
}

fn joined(run: &SplitRun) -> Vec<u8> {
    let mut all = Vec::new();
    for file in &run.files {
        all.extend_from_slice(&file.content);
    }
    all
}

#[test]
fn three_lines_budget_two() {
    let run = run(b"a\nb\nc\n", 2);
    assert!(run.result.is_ok());
    assert_eq!(run.files.len(), 3);
    assert_eq!(run.files[0].path, in_out("1_src"));
    assert_eq!(run.files[0].content, b"a\n".to_vec());
    assert_eq!(run.files[1].path, in_out("2_src"));
    assert_eq!(run.files[1].content, b"b\n".to_vec());
    assert_eq!(run.files[2].path, in_out("3_src"));
    assert_eq!(run.files[2].content, b"c\n".to_vec());
}

#[test]
fn large_budget_gives_one_file() {
    let run = run(b"hello\nworld\n", 1000);
    assert!(run.result.is_ok());
    assert_eq!(run.files.len(), 1);
    assert_eq!(run.files[0].path, in_out("1_src"));
    assert_eq!(run.files[0].content, b"hello\nworld\n".to_vec());
}

#[test]
fn empty_source_gives_no_file() {
    let run = run(b"", 100);
    assert!(run.result.is_ok());
    assert_eq!(run.files.len(), 0);
}

#[test]
fn oversized_line_fails_the_run() {
    let mut source = Vec::new();
    source.extend_from_slice(b"x\nx\nx\n");
    source.extend_from_slice(&[b'y'; 49]);
    source.extend_from_slice(b"\nx\n");
    let run = run(&source, 10);
    match &run.result {
        Err(SplitterError::ChunkTooLarge { size, budget }) => {
            assert_eq!(*size, 50);
            assert_eq!(*budget, 10);
        },
        other => panic!("unexpected result {:?}", other),
    }
    assert_eq!(run.files.len(), 1);
    assert_eq!(run.files[0].content, b"x\nx\nx\n".to_vec());
    assert_eq!(
        run.result.unwrap_err().message(),
        "line size 50 exceeds maximum allowed chunk size 10"
    );
}

#[test]
fn oversized_first_line_writes_nothing() {
    let run = run(b"abcdef\nx\n", 3);
    assert!(matches!(run.result, Err(SplitterError::ChunkTooLarge { size: 7, budget: 3 })));
    assert_eq!(run.files.len(), 0);
}

#[test]
fn budget_zero_fails_on_the_first_line() {
    let run = run(b"a\n", 0);
    assert!(matches!(run.result, Err(SplitterError::ChunkTooLarge { size: 2, budget: 0 })));
    assert!(run.files.is_empty());
    let empty = splitter(0).split(Vec::new());
    assert!(empty.result.is_ok());
    assert!(empty.files.is_empty());
}

#[test]
fn line_equal_to_budget_stands_alone() {
    let run = run(b"a\nbcd\ne\n", 4);
    assert!(run.result.is_ok());
    let contents: Vec<Vec<u8>> = run.files.iter().map(|f| f.content.clone()).collect();
    assert_eq!(contents, vec![b"a\n".to_vec(), b"bcd\n".to_vec(), b"e\n".to_vec()]);
}

#[test]
fn rollover_on_exceeding_not_on_reaching() {
    let run = run(b"ab\ncd\nef\n", 6);
    assert!(run.result.is_ok());
    let contents: Vec<Vec<u8>> = run.files.iter().map(|f| f.content.clone()).collect();
    assert_eq!(contents, vec![b"ab\ncd\n".to_vec(), b"ef\n".to_vec()]);
}

#[test]
fn last_line_without_terminator_is_kept() {
    let run = run(b"ab\ncd", 3);
    assert!(run.result.is_ok());
    let contents: Vec<Vec<u8>> = run.files.iter().map(|f| f.content.clone()).collect();
    assert_eq!(contents, vec![b"ab\n".to_vec(), b"cd".to_vec()]);
}

#[test]
fn empty_lines_are_lines() {
    let run = run(b"\n\n\na\n", 2);
    assert!(run.result.is_ok());
    let contents: Vec<Vec<u8>> = run.files.iter().map(|f| f.content.clone()).collect();
    assert_eq!(contents, vec![b"\n\n".to_vec(), b"\n".to_vec(), b"a\n".to_vec()]);
}

#[test]
fn bytes_that_are_not_text_pass_through() {
    let source: Vec<u8> = vec![0xff, 0x00, 10, 0xc3, 10, 0x80];
    let run = run(&source, 3);
    assert!(run.result.is_ok());
    assert_eq!(run.files.len(), 2);
    assert_eq!(run.files[0].content, vec![0xff, 0x00, 10]);
    assert_eq!(run.files[1].content, vec![0xc3, 10, 0x80]);
    assert_eq!(joined(&run), source);
}

#[test]
fn round_trip_within_budget_on_whole_lines() {
    let source = b"one\ntwo\nthree\nfour\nfive\nsix\nseven\neight\nnine\nten";
    for budget in 6..40u32 {
        let run = run(source, budget);
        assert!(run.result.is_ok());
        assert_eq!(joined(&run), source.to_vec());
        let last = run.files.len() - 1;
        for (k, file) in run.files.iter().enumerate() {
            assert!(file.content.len() <= budget as usize);
            assert!(!file.content.is_empty());
            assert_eq!(file.path, in_out(&format!("{}_src", k + 1)));
            if k < last {
                assert_eq!(*file.content.last().unwrap(), b'\n');
            }
        }
        for k in 1..run.files.len() {
            let first_line = run.files[k].content.split_inclusive(|b| *b == b'\n').next().unwrap();
            assert!(run.files[k - 1].content.len() + first_line.len() > budget as usize);
        }
    }
}

#[test]
fn same_input_same_output() {
    let source = b"alpha\nbeta\ngamma\ndelta\n";
    let first = run(source, 11);
    let second = run(source, 11);
    assert_eq!(first.files.len(), second.files.len());
    for (a, b) in first.files.iter().zip(second.files.iter()) {
        assert_eq!(a.path, b.path);
        assert_eq!(a.content, b.content);
    }
    assert!(first.result.is_ok() && second.result.is_ok());
}

#[test]
fn source_without_a_name_fails_at_the_first_file() {
    let nameless =
        Splitter { chunk_size: 10, read: String::from(".."), write_dir: String::from("out") };
    let run = nameless.split(b"a\n".to_vec());
    assert!(matches!(run.result, Err(SplitterError::InvalidFilename)));
    assert!(run.files.is_empty());
    assert_eq!(run.result.unwrap_err().message(), "Invalid filename.");
    let empty = nameless.split(Vec::new());
    assert!(empty.result.is_ok());
    let oversized = nameless.split(b"0123456789ab\n".to_vec());
    assert!(matches!(oversized.result, Err(SplitterError::ChunkTooLarge { size: 13, budget: 10 })));
}

#[test]
fn new_path_is_number_underscore_base_name_in_the_directory() {
    let s = splitter(1);
    assert_eq!(derive_new_path(1, &s), Some(in_out("1_src")));
    assert_eq!(derive_new_path(10, &s), Some(in_out("10_src")));
    assert_eq!(derive_new_path(0, &s), Some(in_out("0_src")));
    assert_eq!(
        derive_new_path(18446744073709551615, &s),
        Some(in_out("18446744073709551615_src"))
    );
    assert_ne!(derive_new_path(1, &s), Some(String::from("data/src")));
    assert_ne!(derive_new_path(1, &s), Some(String::from("out")));
    let nameless =
        Splitter { chunk_size: 1, read: String::from("/"), write_dir: String::from("out") };
    assert_eq!(derive_new_path(1, &nameless), None);
    assert!(matches!(new_writer_path(1, &nameless), Err(SplitterError::InvalidFilename)));
    assert_eq!(new_writer_path(2, &s).unwrap(), in_out("2_src"));
}
