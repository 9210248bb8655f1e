//! Splitting line-delimited data into a sequence of files of bounded size
//! without ever breaking a line.
//!
//! A source is cut into line records (`line`), the records are taken one by
//! one by a writer that decides when to roll over to the next output file
//! (`writer`), and a run ties the two together and names the files
//! (`splitter`). What the files hold is stated in `chunk`, and what holds of
//! every run in `guarantees`. The byte budget of a run is read from a size
//! string (`size`) as part of its configuration (`config`).
//!
//! The library touches neither files nor threads: its caller reads the
//! source, carries out what the writer decides, and may run the two stages
//! side by side.

pub mod chunk;
pub mod config;
pub mod error;
pub mod guarantees;
pub mod line;
pub mod paths;
pub mod size;
pub mod splitter;
pub mod text;
pub mod writer;
