//! The configuration of a run, as it is made from the command line.

use vstd::prelude::*;
use crate::error::ConfigError;
use crate::size::{size_or_text, ByteSize};

verus! {

/// What the command line holds.
#[derive(Debug)]
pub struct Arguments {
    /// The byte budget, as it was written.
    pub bytes: String,
    /// The path of the file to split.
    pub file: String,
    /// The directory for the output files, where one was given.
    pub dir: Option<String>,
}

/// What a run needs to know.
#[derive(Debug)]
pub struct Config {
    /// The byte budget.
    pub size: u32,
    /// The working directory.
    pub pwd: String,
    /// The path of the file to split.
    pub target: String,
    /// The directory for the output files, where one was given.
    pub dir: Option<String>,
}

impl Config {
    /// Makes the configuration of a run from the command line, the working
    /// directory (or the reason why it is unknown) and the answer to whether
    /// the file to split exists as a regular file. Of several faults the
    /// first in this order is reported: the size, the working directory, the
    /// file.
    pub fn new(args: Arguments, pwd: Result<String, String>, target_is_file: bool) -> (r: Result<
        Config,
        ConfigError,
    >)
        ensures
            match size_or_text(args.bytes@) {
                Err(text) => r matches Err(ConfigError::ByteSizeError(message)) && message@
                    == text,
                Ok(size) => match pwd {
                    Err(reason) => r matches Err(ConfigError::DirError(text)) && text == reason,
                    Ok(pwd) => if target_is_file {
                        r == Ok::<Config, ConfigError>(
                            (Config { size, pwd, target: args.file, dir: args.dir }),
                        )
                    } else {
                        r matches Err(ConfigError::StateError(text)) && text@
                            == "target must be a file"@
                    },
                },
            },
    {
        let size = Config::parse_size(args.bytes.as_str())?;
        let pwd = match pwd {
            Ok(pwd) => pwd,
            Err(reason) => { return Err(ConfigError::DirError(reason)); },
        };
        if !target_is_file {
            return Err(ConfigError::StateError(String::from_str("target must be a file")));
        }
        Ok(Config { size, pwd, target: args.file, dir: args.dir })
    }

    /// Reads a size string: a decimal number, optionally followed by `k`
    /// (thousands of bytes) or `m` (millions of bytes). The error says in
    /// words why a string was rejected.
    #[inline]
    pub fn parse_size(arg: &str) -> (r: Result<u32, ConfigError>)
        ensures
            match size_or_text(arg@) {
                Ok(size) => r == Ok::<u32, ConfigError>(size),
                Err(text) => r matches Err(ConfigError::ByteSizeError(message)) && message@
                    == text,
            },
    {
        match ByteSize::parse_or_explain(arg) {
            Ok(b) => {
                let ByteSize(s) = b;
                Ok(s)
            },
            Err(e) => Err(e),
        }
    }
}

} // verus!
