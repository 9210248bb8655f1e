//! The writer stage: the decisions that turn a stream of line records into
//! a sequence of budget-bounded output files.

use vstd::prelude::*;
use crate::error::SplitterError;
use crate::line::{Handoff, Line};
use crate::splitter::Splitter;

verus! {

/// Where the writer stands.
#[derive(Debug, Clone, Copy, PartialEq, Eq, Structural)]
pub enum WriterState {
    /// No line has arrived yet, and no output file exists.
    AwaitingFirst,
    /// An output file is open and holds at least one line.
    Writing,
    /// The sentinel has arrived; every output file is closed.
    Done,
    /// The run has failed; no more records are accepted.
    Failed,
}

/// What the owner of the output files has to do with the record that the
/// writer has just accepted.
#[derive(Debug, Clone, Copy, PartialEq, Eq, Structural)]
pub enum WriterAction {
    /// Create the output directory, open output file `file_num`, the first
    /// one, and write the record to it.
    Open { file_num: u64 },
    /// Write the record to the output file that is open.
    Append,
    /// Flush and close the output file that is open, open output file
    /// `file_num` and write the record to it.
    Roll { file_num: u64 },
    /// Flush and close the output file that is open, if there is one: the
    /// stream has ended after `files` output files.
    Finish { files: u64 },
}

/// The writer, as the contracts see it.
pub struct WriterModel {
    /// The most bytes that an output file may hold.
    pub budget: u32,
    /// Where the writer stands.
    pub state: WriterState,
    /// The number of the output file that is open; zero before the first.
    pub file_num: nat,
    /// The bytes that the open output file holds.
    pub progress: nat,
}

impl WriterModel {
    /// The writer before the first record.
    pub open spec fn initial(budget: u32) -> WriterModel {
        WriterModel { budget, state: WriterState::AwaitingFirst, file_num: 0, progress: 0 }
    }

    /// Whether the writer takes another record.
    pub open spec fn is_active(self) -> bool {
        self.state is AwaitingFirst || self.state is Writing
    }

    /// What holds of a writer at all times: before the first record there is
    /// no file and no byte; while writing, the open file is not empty and
    /// within the budget.
    pub open spec fn wf(self) -> bool {
        &&& self.state is AwaitingFirst ==> self.file_num == 0 && self.progress == 0
        &&& self.state is Writing ==> self.file_num >= 1 && 1 <= self.progress <= self.budget
    }

    /// The writer after a failure.
    pub open spec fn failed(self) -> WriterModel {
        WriterModel { state: WriterState::Failed, ..self }
    }

    /// The writer after a record of `size` bytes, and what is to be done
    /// with the record, or the error that ends the run.
    ///
    /// The record of length zero ends the stream. A record that is longer
    /// than the budget fails the run. The first record opens the first file.
    /// A later record goes to the open file if the file then still holds at
    /// most `budget` bytes, and opens the next file otherwise.
    pub open spec fn after_record(self, size: nat) -> (WriterModel, Result<
        WriterAction,
        SplitterError,
    >) {
        if size == 0 {
            (
                WriterModel { state: WriterState::Done, ..self },
                Ok(WriterAction::Finish { files: self.file_num as u64 }),
            )
        } else if size > self.budget {
            (
                self.failed(),
                Err(SplitterError::ChunkTooLarge { size: size as usize, budget: self.budget }),
            )
        } else if self.state is AwaitingFirst {
            (
                WriterModel { state: WriterState::Writing, file_num: 1, progress: size, ..self },
                Ok(WriterAction::Open { file_num: 1 }),
            )
        } else if self.progress + size > self.budget {
            (
                WriterModel { file_num: self.file_num + 1, progress: size, ..self },
                Ok(WriterAction::Roll { file_num: (self.file_num + 1) as u64 }),
            )
        } else {
            (
                WriterModel { progress: self.progress + size, ..self },
                Ok(WriterAction::Append),
            )
        }
    }
}

/// What carrying out `action` with the record `line` does to the bytes of
/// the output files.
pub open spec fn perform(files: Seq<Seq<u8>>, action: WriterAction, line: Seq<u8>) -> Seq<Seq<u8>> {
    match action {
        WriterAction::Open { .. } => files.push(line),
        WriterAction::Roll { .. } => files.push(line),
        WriterAction::Append => if files.len() > 0 {
            files.drop_last().push(files.last() + line)
        } else {
            files
        },
        WriterAction::Finish { .. } => files,
    }
}

/// The writer and the bytes of the output files after the records
/// `records` have arrived in order, each action carried out as it came. A
/// writer that has finished or failed takes no more records.
pub open spec fn replay(budget: u32, records: Seq<Seq<u8>>) -> (WriterModel, Seq<Seq<u8>>)
    decreases records.len(),
{
    if records.len() == 0 {
        (WriterModel::initial(budget), Seq::empty())
    } else {
        let (writer, files) = replay(budget, records.drop_last());
        if writer.is_active() {
            let (next, result) = writer.after_record(records.last().len());
            match result {
                Ok(action) => (next, perform(files, action, records.last())),
                Err(_) => (next, files),
            }
        } else {
            (writer, files)
        }
    }
}

/// Whether the writer writes a record of these bytes to an output file: the
/// record is neither the sentinel nor longer than the budget.
pub open spec fn is_written(record: Seq<u8>, budget: nat) -> bool {
    1 <= record.len() <= budget
}

/// How many of `records` the writer writes: those before the first that is
/// the sentinel or longer than the budget.
pub open spec fn written_count(records: Seq<Seq<u8>>, budget: nat) -> nat
    decreases records.len(),
{
    if records.len() == 0 {
        0
    } else {
        let before = written_count(records.drop_last(), budget);
        if before == records.len() - 1 && is_written(records.last(), budget) {
            records.len()
        } else {
            before
        }
    }
}

/// The writer stage of a run.
#[derive(Debug)]
pub struct SplitWriter<'s> {
    splitter: &'s Splitter,
    state: WriterState,
    file_num: u64,
    progress: u32,
}

impl<'s> View for SplitWriter<'s> {
    type V = WriterModel;

    closed spec fn view(&self) -> WriterModel {
        WriterModel {
            budget: self.splitter.chunk_size,
            state: self.state,
            file_num: self.file_num as nat,
            progress: self.progress as nat,
        }
    }
}

impl<'s> SplitWriter<'s> {
    #[verifier::type_invariant]
    spec fn well_formed(&self) -> bool {
        self@.wf()
    }

    /// The run that the writer belongs to.
    pub closed spec fn run(&self) -> Splitter {
        *self.splitter
    }

    /// The writer of the run `splitter`, before the first record.
    pub fn new(splitter: &'s Splitter) -> (writer: Self)
        ensures
            writer@ == WriterModel::initial(splitter.chunk_size),
            writer@.wf(),
            writer.run() == *splitter,
    {
        SplitWriter { splitter, state: WriterState::AwaitingFirst, file_num: 0, progress: 0 }
    }

    /// Where the writer stands.
    pub fn state(&self) -> (state: WriterState)
        ensures
            state == self@.state,
    {
        self.state
    }

    /// Whether the writer takes another record.
    pub fn is_active(&self) -> (active: bool)
        ensures
            active == self@.is_active(),
    {
        match self.state {
            WriterState::AwaitingFirst => true,
            WriterState::Writing => true,
            _ => false,
        }
    }

    /// The number of the output file that is open; zero before the first.
    pub fn file_num(&self) -> (file_num: u64)
        ensures
            file_num == self@.file_num,
    {
        self.file_num
    }

    /// Takes the next record of the stream and says what is to be done with
    /// it.
    pub fn accept_line(&mut self, line: &Line) -> (r: Result<WriterAction, SplitterError>)
        requires
            old(self)@.is_active(),
            old(self)@.file_num < u64::MAX,
        ensures
            (final(self)@, r) == old(self)@.after_record(line@.len()),
            old(self)@.wf() && final(self)@.wf(),
            final(self).run() == old(self).run(),
    {
        proof {
            use_type_invariant(&*self);
        }
        let size = line.size();
        let budget = self.splitter.chunk_size;
        if size == 0 {
            self.state = WriterState::Done;
            return Ok(WriterAction::Finish { files: self.file_num });
        }
        if size > budget as usize {
            self.state = WriterState::Failed;
            return Err(SplitterError::ChunkTooLarge { size, budget });
        }
        let size = size as u32;
        match self.state {
            WriterState::AwaitingFirst => {
                *self = SplitWriter {
                    splitter: self.splitter,
                    state: WriterState::Writing,
                    file_num: 1,
                    progress: size,
                };
                Ok(WriterAction::Open { file_num: 1 })
            },
            _ => {
                if size > budget - self.progress {
                    self.file_num = self.file_num + 1;
                    self.progress = size;
                    Ok(WriterAction::Roll { file_num: self.file_num })
                } else {
                    self.progress = self.progress + size;
                    Ok(WriterAction::Append)
                }
            },
        }
    }

    /// Takes the news that the stream broke off before its sentinel, and
    /// gives the error that ends the run.
    pub fn fail(&mut self, reason: &String) -> (e: SplitterError)
        requires
            old(self)@.is_active(),
        ensures
            final(self)@ == old(self)@.failed(),
            old(self)@.wf() && final(self)@.wf(),
            final(self).run() == old(self).run(),
            e == SplitterError::StreamDisconnected(*reason),
    {
        proof {
            use_type_invariant(&*self);
        }
        self.state = WriterState::Failed;
        SplitterError::StreamDisconnected(reason.clone())
    }

    /// Takes what arrived from the handoff queue: a record, or the news that
    /// the stream broke off.
    pub fn accept(&mut self, handoff: &Handoff) -> (r: Result<WriterAction, SplitterError>)
        requires
            old(self)@.is_active(),
            old(self)@.file_num < u64::MAX,
        ensures
            final(self).run() == old(self).run(),
            old(self)@.wf() && final(self)@.wf(),
            match handoff {
                Handoff::Record(line) => (final(self)@, r) == old(self)@.after_record(
                    line@.len(),
                ),
                Handoff::Failure(reason) => final(self)@ == old(self)@.failed() && r == Err::<
                    WriterAction,
                    SplitterError,
                >(SplitterError::StreamDisconnected(*reason)),
            },
    {
        match handoff {
            Handoff::Record(line) => self.accept_line(line),
            Handoff::Failure(reason) => Err(self.fail(reason)),
        }
    }
}

} // verus!
