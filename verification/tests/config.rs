use line_split::config::{Arguments, Config};
use line_split::error::ConfigError;
use line_split::splitter::Splitter;
use line_split::text::decimal_string;

fn arguments(bytes: &str, dir: Option<&str>) -> Arguments {
    Arguments {
        bytes: String::from(bytes),
        file: String::from("data/src"),
        dir: dir.map(String::from),
    }
}

#[test]
fn config_from_good_arguments() {
    let cfg = Config::new(arguments("2k", Some("out")), Ok(String::from("/work")), true).unwrap();
    assert_eq!(cfg.size, 2000);
    assert_eq!(cfg.pwd, "/work");
    assert_eq!(cfg.target, "data/src");
    assert_eq!(cfg.dir, Some(String::from("out")));
}

#[test]
fn config_reports_the_first_fault() {
    let all = Config::new(arguments("2km", None), Err(String::from("no cwd")), false);
    match all {
        Err(ConfigError::ByteSizeError(text)) => {
            assert_eq!(text, "2k is not numeric, only k or m is a supported size suffix")
        },
        other => panic!("unexpected result {:?}", other),
    }
    let dir = Config::new(arguments("2m", None), Err(String::from("no cwd")), false);
    match dir {
        Err(ConfigError::DirError(reason)) => assert_eq!(reason, "no cwd"),
        other => panic!("unexpected result {:?}", other),
    }
    let file = Config::new(arguments("2m", None), Ok(String::from("/work")), false);
    match file {
        Err(e) => {
            assert!(matches!(e, ConfigError::StateError(_)));
            assert_eq!(e.message(), "target must be a file");
        },
        other => panic!("unexpected result {:?}", other),
    }
}

#[test]
fn config_error_messages() {
    assert_eq!(ConfigError::DirError(String::from("no cwd")).message(), "no cwd");
    assert_eq!(ConfigError::StateError(String::from("bad")).message(), "bad");
}

#[test]
fn splitter_writes_to_the_given_directory_or_the_working_directory() {
    let given = Config::new(arguments("10", Some("out")), Ok(String::from("/work")), true).unwrap();
    let s = Splitter::new(given);
    assert_eq!(s.chunk_size, 10);
    assert_eq!(s.read, "data/src");
    assert_eq!(s.write_dir, "out");
    let default = Config::new(arguments("10", None), Ok(String::from("/work")), true).unwrap();
    let s = Splitter::new(default);
    assert_eq!(s.write_dir, "/work");
}

#[test]
fn numbers_in_decimal() {
    assert_eq!(decimal_string(0), "0");
    assert_eq!(decimal_string(7), "7");
    assert_eq!(decimal_string(10), "10");
    assert_eq!(decimal_string(1234567890), "1234567890");
    assert_eq!(decimal_string(u64::MAX), "18446744073709551615");
}
