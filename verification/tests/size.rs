use line_split::config::Config;
use line_split::error::ConfigError;
use line_split::size::{parse_decimal, ByteSize, SizeFault};

#[test]
fn bytesize_fromstr_numeric_ok() {
    let input = "2000";

    let ByteSize(size) = input.parse::<ByteSize>().unwrap();
    assert_eq!(size, 2000);
}

#[test]
fn bytesize_fromstr_kilo_ok() {
    let input = "2k";

    let ByteSize(size) = input.parse::<ByteSize>().unwrap();
    assert_eq!(size, 2000);
}

#[test]
fn bytesize_fromstr_mega_ok() {
    let input = "2m";

    let ByteSize(size) = input.parse::<ByteSize>().unwrap();
    assert_eq!(size, 2_000_000);
}

#[test]
fn bytesize_fromstr_invalid() {
    let input = "2km";

    let size = input.parse::<ByteSize>();
    assert!(size.is_err());
}

fn fault_of(input: &str) -> SizeFault {
    match ByteSize::parse(input) {
        Ok(ByteSize(size)) => panic!("{} was read as {}", input, size),
        Err(fault) => fault,
    }
}

#[test]
fn parse_size_reads_each_form() {
    assert!(matches!(Config::parse_size("2k"), Ok(2000)));
    assert!(matches!(Config::parse_size("2m"), Ok(2_000_000)));
    assert!(matches!(Config::parse_size("2000"), Ok(2000)));
    assert!(matches!(Config::parse_size("0"), Ok(0)));
    assert!(matches!(Config::parse_size("007"), Ok(7)));
    assert!(matches!(Config::parse_size("0k"), Ok(0)));
}

fn text_of(input: &str) -> String {
    match Config::parse_size(input) {
        Ok(size) => panic!("{} was read as {}", input, size),
        Err(ConfigError::ByteSizeError(text)) => text,
        Err(other) => panic!("unexpected error {:?}", other),
    }
}

#[test]
fn parse_size_rejects_two_suffixes() {
    assert_eq!(text_of("2km"), "2k is not numeric, only k or m is a supported size suffix");
}

#[test]
fn rejected_size_names_what_is_wrong() {
    assert_eq!(text_of("2x"), "x is not a support size suffix");
    assert_eq!(text_of("2K"), "K is not a support size suffix");
    assert_eq!(text_of("12 "), "  is not a support size suffix");
    assert_eq!(text_of("4294967296"), "6 is not a support size suffix");
    assert_eq!(text_of("abc"), "ab is not numeric, only k or m is a supported size suffix");
    assert_eq!(text_of("k"), " is not numeric, only k or m is a supported size suffix");
    assert_eq!(text_of("x"), " is not numeric, only k or m is a supported size suffix");
    assert_eq!(
        text_of("99999999999"),
        "9999999999 is not numeric, only k or m is a supported size suffix"
    );
    assert_eq!(
        text_of("99999999999k"),
        "99999999999 is not numeric, only k or m is a supported size suffix"
    );
    assert_eq!(text_of("+5"), "+ is not numeric, only k or m is a supported size suffix");
    assert_eq!(text_of("5\u{e9}"), "5 is not numeric, only k or m is a supported size suffix");
    assert_eq!(text_of(""), "the size is empty");
    assert_eq!(text_of("4295m"), "the size does not fit in 32 bits");
}

#[test]
fn from_str_gives_the_same_text() {
    match "2x".parse::<ByteSize>() {
        Err(ConfigError::ByteSizeError(text)) => assert_eq!(text, "x is not a support size suffix"),
        other => panic!("unexpected result {:?}", other),
    }
    match ByteSize::parse_or_explain("2km") {
        Err(e) => assert_eq!(
            e.message(),
            "2k is not numeric, only k or m is a supported size suffix"
        ),
        other => panic!("unexpected result {:?}", other),
    }
    assert!(matches!(ByteSize::parse_or_explain("3k"), Ok(ByteSize(3000))));
}

#[test]
fn size_faults_by_input() {
    assert_eq!(fault_of(""), SizeFault::Empty);
    assert_eq!(fault_of("k"), SizeFault::NotNumeric);
    assert_eq!(fault_of("abc"), SizeFault::NotNumeric);
    assert_eq!(fault_of("2km"), SizeFault::NotNumeric);
    assert_eq!(fault_of("+5"), SizeFault::NotNumeric);
    assert_eq!(fault_of("-5"), SizeFault::NotNumeric);
    assert_eq!(fault_of(" 5"), SizeFault::NotNumeric);
    assert_eq!(fault_of(" 5k"), SizeFault::NotNumeric);
    assert_eq!(fault_of("5 "), SizeFault::UnknownSuffix);
    assert_eq!(fault_of("2x"), SizeFault::UnknownSuffix);
    assert_eq!(fault_of("2K"), SizeFault::UnknownSuffix);
    assert_eq!(fault_of("2M"), SizeFault::UnknownSuffix);
    assert_eq!(fault_of("5\u{e9}"), SizeFault::NotNumeric);
}

#[test]
fn size_limits() {
    assert!(matches!(ByteSize::parse("4294967295"), Ok(ByteSize(4294967295))));
    assert_eq!(fault_of("4294967296"), SizeFault::UnknownSuffix);
    assert_eq!(fault_of("99999999999999999999999999"), SizeFault::NotNumeric);
    assert!(matches!(ByteSize::parse("4294967k"), Ok(ByteSize(4294967000))));
    assert_eq!(fault_of("4294968k"), SizeFault::TooLarge);
    assert!(matches!(ByteSize::parse("4294m"), Ok(ByteSize(4294000000))));
    assert_eq!(fault_of("4295m"), SizeFault::TooLarge);
    assert_eq!(fault_of("99999999999k"), SizeFault::NotNumeric);
    assert_eq!(fault_of("4294967296k"), SizeFault::NotNumeric);
}

#[test]
fn parse_decimal_reads_a_prefix() {
    assert_eq!(parse_decimal(b"123k", 3), Some(123));
    assert_eq!(parse_decimal(b"123k", 4), None);
    assert_eq!(parse_decimal(b"123k", 0), None);
    assert_eq!(parse_decimal(b"123k", 1), Some(1));
    assert_eq!(parse_decimal(b"4294967295", 10), Some(4294967295));
    assert_eq!(parse_decimal(b"4294967296", 10), None);
    assert_eq!(parse_decimal(b"42949672950", 11), None);
    assert_eq!(parse_decimal(b"4294967296x", 10), None);
}

#[test]
fn size_fault_messages() {
    assert_eq!(SizeFault::Empty.message(""), "the size is empty");
    assert_eq!(
        SizeFault::NotNumeric.message("1a2k"),
        "1a2 is not numeric, only k or m is a supported size suffix"
    );
    assert_eq!(SizeFault::UnknownSuffix.message("12g"), "g is not a support size suffix");
    assert_eq!(SizeFault::TooLarge.message("4295m"), "the size does not fit in 32 bits");
    assert_eq!(
        ConfigError::ByteSizeError(String::from("g is not a support size suffix")).message(),
        "g is not a support size suffix"
    );
}
