//! Byte budgets and the size strings they are written as.

use vstd::prelude::*;
use vstd::utf8::encode_utf8;
use crate::error::ConfigError;

verus! {

/// The byte `0`, the least decimal digit.
pub const DIGIT_ZERO: u8 = 48;

/// The byte `9`, the greatest decimal digit.
pub const DIGIT_NINE: u8 = 57;

/// The byte `k`, the suffix for thousands of bytes.
pub const SUFFIX_KILO: u8 = 107;

/// The byte `m`, the suffix for millions of bytes.
pub const SUFFIX_MEGA: u8 = 109;

/// Why a size string was rejected.
#[derive(Debug, Clone, Copy, PartialEq, Eq, Structural)]
pub enum SizeFault {
    /// The string holds no bytes at all.
    Empty,
    /// The part before the last byte is not a decimal number of at most 32
    /// bits.
    NotNumeric,
    /// The number is followed by a byte other than `k` or `m`.
    UnknownSuffix,
    /// The number, once its suffix is applied, does not fit in 32 bits.
    TooLarge,
}

/// The characters of `arg` but the last.
pub open spec fn all_but_last(arg: Seq<char>) -> Seq<char> {
    if arg.len() > 0 {
        arg.subrange(0, arg.len() - 1)
    } else {
        arg
    }
}

/// The last character of `arg`, as a text of its own.
pub open spec fn last_of(arg: Seq<char>) -> Seq<char> {
    if arg.len() > 0 {
        arg.subrange(arg.len() - 1, arg.len() as int)
    } else {
        arg
    }
}

impl SizeFault {
    /// What is said of the size string `arg` when it has this fault. A bad
    /// suffix is named, and so is what stands before the suffix where that
    /// is not a number.
    pub open spec fn text(self, arg: Seq<char>) -> Seq<char> {
        match self {
            SizeFault::Empty => "the size is empty"@,
            SizeFault::NotNumeric => all_but_last(arg)
                + " is not numeric, only k or m is a supported size suffix"@,
            SizeFault::UnknownSuffix => last_of(arg) + " is not a support size suffix"@,
            SizeFault::TooLarge => "the size does not fit in 32 bits"@,
        }
    }

    /// Describes the fault of the size string `arg` for a person to read.
    pub fn message(self, arg: &str) -> (message: String)
        ensures
            message@ == self.text(arg@),
    {
        let count = arg.unicode_len();
        match self {
            SizeFault::Empty => String::from_str("the size is empty"),
            SizeFault::NotNumeric => {
                let prefix = if count > 0 {
                    arg.substring_char(0, count - 1)
                } else {
                    arg
                };
                String::from_str(prefix).concat(
                    " is not numeric, only k or m is a supported size suffix",
                )
            },
            SizeFault::UnknownSuffix => {
                let suffix = if count > 0 {
                    arg.substring_char(count - 1, count)
                } else {
                    arg
                };
                String::from_str(suffix).concat(" is not a support size suffix")
            },
            SizeFault::TooLarge => String::from_str("the size does not fit in 32 bits"),
        }
    }
}

/// Whether `b` is an ASCII decimal digit.
pub open spec fn is_digit(b: u8) -> bool {
    DIGIT_ZERO <= b <= DIGIT_NINE
}

/// Whether `s` is a non-empty run of ASCII decimal digits.
pub open spec fn all_digits(s: Seq<u8>) -> bool {
    s.len() > 0 && forall|i: int| 0 <= i < s.len() ==> is_digit(#[trigger] s[i])
}

/// The number that the decimal digits `s` denote, most significant first.
pub open spec fn decimal_value(s: Seq<u8>) -> nat
    decreases s.len(),
{
    if s.len() == 0 {
        0
    } else {
        10 * decimal_value(s.drop_last()) + (s.last() - DIGIT_ZERO) as nat
    }
}

/// What a run of bytes is worth as a decimal number of at most 32 bits:
/// the number, where the bytes are decimal digits and the number fits.
pub open spec fn decimal_spec(s: Seq<u8>) -> Option<u32> {
    if all_digits(s) && decimal_value(s) <= u32::MAX {
        Some(decimal_value(s) as u32)
    } else {
        None
    }
}

/// The factor that a suffix byte stands for: `k` is a thousand, `m` a
/// million; no other byte is a suffix.
pub open spec fn suffix_factor(b: u8) -> Option<nat> {
    if b == SUFFIX_KILO {
        Some(1_000)
    } else if b == SUFFIX_MEGA {
        Some(1_000_000)
    } else {
        None
    }
}

/// The budget that the bytes of a size string denote. A decimal number is a
/// number of bytes. Anything else is taken apart into what stands before its
/// last byte, which has to be a decimal number, and the last byte, which has
/// to be `k` for thousands or `m` for millions of bytes.
pub open spec fn parse_size_spec(s: Seq<u8>) -> Result<u32, SizeFault> {
    match decimal_spec(s) {
        Some(size) => Ok(size),
        None => if s.len() == 0 {
            Err(SizeFault::Empty)
        } else {
            match decimal_spec(s.drop_last()) {
                None => Err(SizeFault::NotNumeric),
                Some(count) => match suffix_factor(s.last()) {
                    None => Err(SizeFault::UnknownSuffix),
                    Some(factor) => if count * factor <= u32::MAX {
                        Ok((count * factor) as u32)
                    } else {
                        Err(SizeFault::TooLarge)
                    },
                },
            }
        },
    }
}

/// The budget that a size string denotes, by its characters.
pub open spec fn size_of_text(text: Seq<char>) -> Result<u32, SizeFault> {
    parse_size_spec(encode_utf8(text))
}

/// What reading the size string `arg` gives: the budget, or the text that
/// says why there is none.
pub open spec fn size_or_text(arg: Seq<char>) -> Result<u32, Seq<char>> {
    match size_of_text(arg) {
        Ok(size) => Ok(size),
        Err(fault) => Err(fault.text(arg)),
    }
}

/// Appending a digit multiplies by ten and adds the digit.
pub proof fn lemma_decimal_value_push(s: Seq<u8>, d: u8)
    ensures
        decimal_value(s.push(d)) == 10 * decimal_value(s) + (d - DIGIT_ZERO) as nat,
{
    assert(s.push(d).drop_last() =~= s);
}

/// Reads the first `len` bytes of `bytes` as a decimal number of at most 32
/// bits.
pub fn parse_decimal(bytes: &[u8], len: usize) -> (r: Option<u32>)
    requires
        len <= bytes@.len(),
    ensures
        r == decimal_spec(bytes@.subrange(0, len as int)),
{
    let ghost whole = bytes@.subrange(0, len as int);
    if len == 0 {
        return None;
    }
    let mut value: u64 = 0;
    let mut i: usize = 0;
    while i < len
        invariant
            i <= len <= bytes@.len(),
            whole == bytes@.subrange(0, len as int),
            forall|j: int| 0 <= j < i ==> is_digit(#[trigger] whole[j]),
            value == decimal_value(whole.subrange(0, i as int)),
            value <= u32::MAX,
        decreases len - i,
    {
        let b: u8 = bytes[i];
        if b < DIGIT_ZERO || b > DIGIT_NINE {
            assert(!is_digit(whole[i as int]));
            return None;
        }
        proof {
            lemma_decimal_value_push(whole.subrange(0, i as int), b);
            assert(whole.subrange(0, i + 1) =~= whole.subrange(0, i as int).push(b));
        }
        let next: u64 = value * 10 + (b - DIGIT_ZERO) as u64;
        if next > 0xffff_ffff {
            proof {
                if all_digits(whole) {
                    lemma_decimal_value_grows(whole, i + 1);
                }
            }
            return None;
        }
        value = next;
        i = i + 1;
    }
    assert(whole.subrange(0, len as int) =~= whole);
    Some(value as u32)
}

/// A decimal number is at least the number that any of its leading digits
/// denote.
pub proof fn lemma_decimal_value_grows(s: Seq<u8>, n: int)
    requires
        0 <= n <= s.len(),
        forall|i: int| n <= i < s.len() ==> s[i] >= DIGIT_ZERO,
    ensures
        decimal_value(s.subrange(0, n)) <= decimal_value(s),
    decreases s.len() - n,
{
    if n < s.len() {
        assert forall|i: int| n <= i < s.drop_last().len() implies s.drop_last()[i]
            >= DIGIT_ZERO by {
            assert(s.drop_last()[i] == s[i]);
        }
        lemma_decimal_value_grows(s.drop_last(), n);
        assert(s.drop_last().subrange(0, n) =~= s.subrange(0, n));
    } else {
        assert(s.subrange(0, n) =~= s);
    }
}

/// A byte budget as it is written on a command line.
#[derive(Debug)]
pub struct ByteSize(pub u32);

impl ByteSize {
    /// Reads a size string: a decimal number, optionally followed by `k`
    /// (thousands of bytes) or `m` (millions of bytes).
    pub fn parse(arg: &str) -> (r: Result<ByteSize, SizeFault>)
        ensures
            match size_of_text(arg@) {
                Ok(size) => r == Ok::<ByteSize, SizeFault>(ByteSize(size)),
                Err(fault) => r == Err::<ByteSize, SizeFault>(fault),
            },
    {
        let bytes = arg.as_bytes();
        let len = bytes.len();
        let ghost s = bytes@;
        assert(s.subrange(0, len as int) =~= s);
        match parse_decimal(bytes, len) {
            Some(size) => Ok(ByteSize(size)),
            None => {
                if len == 0 {
                    return Err(SizeFault::Empty);
                }
                assert(s.subrange(0, len - 1) =~= s.drop_last());
                let count = match parse_decimal(bytes, len - 1) {
                    Some(count) => count,
                    None => { return Err(SizeFault::NotNumeric); },
                };
                let suffix: u8 = bytes[len - 1];
                let factor: u64 = if suffix == SUFFIX_KILO {
                    1_000
                } else if suffix == SUFFIX_MEGA {
                    1_000_000
                } else {
                    return Err(SizeFault::UnknownSuffix);
                };
                let scaled: u64 = count as u64 * factor;
                if scaled > 0xffff_ffff {
                    Err(SizeFault::TooLarge)
                } else {
                    Ok(ByteSize(scaled as u32))
                }
            },
        }
    }

    /// Reads a size string as `parse` does, and says in words why a string
    /// was rejected.
    pub fn parse_or_explain(arg: &str) -> (r: Result<ByteSize, ConfigError>)
        ensures
            match size_or_text(arg@) {
                Ok(size) => r == Ok::<ByteSize, ConfigError>(ByteSize(size)),
                Err(text) => r matches Err(ConfigError::ByteSizeError(message)) && message@
                    == text,
            },
    {
        match ByteSize::parse(arg) {
            Ok(size) => Ok(size),
            Err(fault) => Err(ConfigError::ByteSizeError(fault.message(arg))),
        }
    }
}

impl std::str::FromStr for ByteSize {
    type Err = ConfigError;

    /// Reads a size string as `ByteSize::parse_or_explain` does.
    fn from_str(arg: &str) -> (r: Result<Self, Self::Err>)
        ensures
            match size_or_text(arg@) {
                Ok(size) => r == Ok::<ByteSize, ConfigError>(ByteSize(size)),
                Err(text) => r matches Err(ConfigError::ByteSizeError(message)) && message@
                    == text,
            },
    {
        ByteSize::parse_or_explain(arg)
    }
}

} // verus!
