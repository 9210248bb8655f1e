//! What can go wrong, before the pipeline starts and while it runs.

use vstd::prelude::*;
use crate::text::{decimal_chars, decimal_string};

verus! {

/// A failure that is found before the pipeline starts.
#[derive(Debug)]
pub enum ConfigError {
    /// The size string does not denote a byte budget; the text says what is
    /// wrong with it.
    ByteSizeError(String),
    /// The working directory could not be determined; the text says why.
    DirError(String),
    /// The arguments do not describe a run that can start; the text says why.
    StateError(String),
}

/// A failure that ends a run of the pipeline.
#[derive(Debug)]
pub enum SplitterError {
    /// One line alone is longer than the budget allows a whole file to be.
    ChunkTooLarge { size: usize, budget: u32 },
    /// Reading the source failed; the text says why.
    SourceIO(String),
    /// Creating the output directory, or opening or writing an output file,
    /// failed; the text says why.
    SinkIO(String),
    /// The stream of records broke off before its sentinel; the text says
    /// what is known of the cause.
    StreamDisconnected(String),
    /// The source path has no final component to name the output files by.
    InvalidFilename,
}

impl ConfigError {
    /// The text of the error.
    pub open spec fn text(self) -> Seq<char> {
        match self {
            ConfigError::ByteSizeError(reason) => reason@,
            ConfigError::DirError(reason) => reason@,
            ConfigError::StateError(reason) => reason@,
        }
    }

    /// Describes the error for a person to read.
    pub fn message(&self) -> (message: String)
        ensures
            message@ == self.text(),
    {
        match self {
            ConfigError::ByteSizeError(reason) => reason.clone(),
            ConfigError::DirError(reason) => reason.clone(),
            ConfigError::StateError(reason) => reason.clone(),
        }
    }
}

impl SplitterError {
    /// The text of the error.
    pub open spec fn text(self) -> Seq<char> {
        match self {
            SplitterError::ChunkTooLarge { size, budget } => "line size "@ + decimal_chars(
                size as nat,
            ) + " exceeds maximum allowed chunk size "@ + decimal_chars(budget as nat),
            SplitterError::SourceIO(reason) => "reading the source failed: "@ + reason@,
            SplitterError::SinkIO(reason) => "writing the output failed: "@ + reason@,
            SplitterError::StreamDisconnected(reason) =>
                "the stream of lines broke off before its end: "@ + reason@,
            SplitterError::InvalidFilename => "Invalid filename."@,
        }
    }

    /// Describes the error for a person to read.
    pub fn message(&self) -> (message: String)
        ensures
            message@ == self.text(),
    {
        match self {
            SplitterError::ChunkTooLarge { size, budget } => {
                let mut message = String::from_str("line size ");
                message.append(decimal_string(*size as u64).as_str());
                message.append(" exceeds maximum allowed chunk size ");
                message.append(decimal_string(*budget as u64).as_str());
                message
            },
            SplitterError::SourceIO(reason) => String::from_str(
                "reading the source failed: ",
            ).concat(reason.as_str()),
            SplitterError::SinkIO(reason) => String::from_str("writing the output failed: ").concat(
                reason.as_str(),
            ),
            SplitterError::StreamDisconnected(reason) => String::from_str(
                "the stream of lines broke off before its end: ",
            ).concat(reason.as_str()),
            SplitterError::InvalidFilename => String::from_str("Invalid filename."),
        }
    }
}

} // verus!
