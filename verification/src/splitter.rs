//! The orchestrator: what is split, into what, and under which names.

use vstd::prelude::*;
use vstd::slice::slice_to_vec;
use crate::chunk::{
    all_fit, first_oversized, lemma_first_oversized, lemma_first_oversized_at, lemma_pack_push,
    pack,
};
use crate::config::Config;
use crate::error::SplitterError;
use crate::line::{contents, lemma_lines_are_whole, lines_of, SplitReader};
use crate::paths::{file_name, join, path_file_name, path_join};
use crate::text::{
    decimal_chars, decimal_string, is_digit_char, lemma_decimal_chars_are_digits,
    lemma_decimal_chars_differ,
};
use crate::writer::{SplitWriter, WriterAction, WriterModel};

verus! {

/// A run of the pipeline: the budget, the file to split and the directory
/// that the output files go to.
#[derive(Debug)]
pub struct Splitter {
    /// The most bytes that an output file may hold.
    pub chunk_size: u32,
    /// The path of the file to split.
    pub read: String,
    /// The directory for the output files.
    pub write_dir: String,
}

/// The name of output file number `file_num` of a source whose base name is
/// `base`: the number, an underscore, the base name.
pub open spec fn numbered_name(file_num: nat, base: Seq<char>) -> Seq<char> {
    decimal_chars(file_num) + seq!['_'] + base
}

/// Output files with different numbers have different names: no file is
/// opened a second time under the name of another.
pub proof fn lemma_numbered_names_differ(a: nat, b: nat, base: Seq<char>)
    requires
        a != b,
    ensures
        numbered_name(a, base) != numbered_name(b, base),
{
    let digits_a = decimal_chars(a);
    let digits_b = decimal_chars(b);
    let name_a = numbered_name(a, base);
    let name_b = numbered_name(b, base);
    lemma_decimal_chars_are_digits(a);
    lemma_decimal_chars_are_digits(b);
    lemma_decimal_chars_differ(a, b);
    if digits_a.len() == digits_b.len() {
        assert(name_a.subrange(0, digits_a.len() as int) =~= digits_a);
        assert(name_b.subrange(0, digits_b.len() as int) =~= digits_b);
    } else if digits_a.len() < digits_b.len() {
        let at = digits_a.len() as int;
        assert(name_a[at] == '_');
        assert(name_b[at] == digits_b[at]);
        assert(is_digit_char(digits_b[at]));
    } else {
        let at = digits_b.len() as int;
        assert(name_b[at] == '_');
        assert(name_a[at] == digits_a[at]);
        assert(is_digit_char(digits_a[at]));
    }
}

/// The path of output file number `file_num`, where the source path has a
/// final component to name it by.
pub open spec fn output_path(splitter: Splitter, file_num: nat) -> Option<Seq<char>> {
    match path_file_name(splitter.read@) {
        None => None,
        Some(base) => Some(path_join(splitter.write_dir@, numbered_name(file_num, base))),
    }
}

/// An output file: where it goes and what it holds.
#[derive(Debug)]
pub struct OutputFile {
    /// The path of the file.
    pub path: String,
    /// The bytes of the file.
    pub content: Vec<u8>,
}

/// How a run has ended: the output files that it has written, in the order
/// of their numbers, and whether it has come to the end of the source.
#[derive(Debug)]
pub struct SplitRun {
    /// The output files that were written. After a failure these are the
    /// files that were written before it.
    pub files: Vec<OutputFile>,
    /// Success, or the error that has ended the run.
    pub result: Result<(), SplitterError>,
}

/// The path and the bytes of each of `files`.
pub open spec fn files_view(files: Seq<OutputFile>) -> Seq<(Seq<char>, Seq<u8>)> {
    Seq::new(files.len(), |k: int| (files[k].path@, files[k].content@))
}

/// The chunks `chunks` as output files of the run `splitter`: chunk `k` goes
/// to output file number `k + 1`.
pub open spec fn named(splitter: Splitter, chunks: Seq<Seq<u8>>) -> Seq<(Seq<char>, Seq<u8>)> {
    Seq::new(
        chunks.len(),
        |k: int| (output_path(splitter, (k + 1) as nat).unwrap(), chunks[k]),
    )
}

impl Splitter {
    /// Whether the run fails for want of a name for its first output file:
    /// the source has a first line, the line fits the budget, and the source
    /// path has no final component.
    pub open spec fn lacks_name(self, content: Seq<u8>) -> bool {
        &&& lines_of(content).len() > 0
        &&& lines_of(content)[0].len() <= self.chunk_size
        &&& path_file_name(self.read@) is None
    }

    /// The lines of the source `content` that reach the output files: all
    /// of them where every line fits the budget, and else those before the
    /// first line that does not; none where the output files have no name.
    pub open spec fn written(self, content: Seq<u8>) -> Seq<Seq<u8>> {
        let lines = lines_of(content);
        if self.lacks_name(content) {
            Seq::empty()
        } else {
            match first_oversized(lines, self.chunk_size as nat) {
                None => lines,
                Some(i) => lines.take(i),
            }
        }
    }

    /// What each output file of a run over the source `content` holds.
    pub open spec fn chunks(self, content: Seq<u8>) -> Seq<Seq<u8>> {
        pack(self.written(content), self.chunk_size as nat)
    }

    /// How a run over the source `content` ends: in success where every line
    /// fits the budget (and the output files, if there are any, have a
    /// name), and else in the error of the first fault.
    pub open spec fn outcome(self, content: Seq<u8>) -> Result<(), SplitterError> {
        let lines = lines_of(content);
        if self.lacks_name(content) {
            Err(SplitterError::InvalidFilename)
        } else {
            match first_oversized(lines, self.chunk_size as nat) {
                None => Ok(()),
                Some(i) => Err(
                    SplitterError::ChunkTooLarge {
                        size: lines[i].len() as usize,
                        budget: self.chunk_size,
                    },
                ),
            }
        }
    }

    /// What holds between the lines taken so far and the output files,
    /// closed and open, while a run is under way.
    spec fn under_way(
        self,
        lines: Seq<Seq<u8>>,
        taken: int,
        closed: Seq<OutputFile>,
        open_path: Seq<char>,
        open_content: Seq<u8>,
        writer: WriterModel,
    ) -> bool {
        let budget = self.chunk_size as nat;
        &&& 0 <= taken <= lines.len()
        &&& all_fit(lines.take(taken), budget)
        &&& writer.budget == self.chunk_size
        &&& writer.wf()
        &&& writer.file_num <= taken
        &&& if taken == 0 {
            &&& writer.state is AwaitingFirst
            &&& closed.len() == 0
        } else {
            &&& writer.state is Writing
            &&& path_file_name(self.read@) is Some
            &&& writer.file_num == closed.len() + 1
            &&& writer.progress == open_content.len()
            &&& files_view(closed).push((open_path, open_content)) == named(
                self,
                pack(lines.take(taken), budget),
            )
        }
    }

    /// The run that `cfg` describes. The output goes to the directory that
    /// was given, and to the working directory where none was.
    pub fn new(cfg: Config) -> (splitter: Splitter)
        ensures
            splitter.chunk_size == cfg.size,
            splitter.read == cfg.target,
            splitter.write_dir == match cfg.dir {
                Some(d) => d,
                None => cfg.pwd,
            },
    {
        Splitter {
            chunk_size: cfg.size,
            read: cfg.target,
            write_dir: match cfg.dir {
                Some(d) => d,
                None => cfg.pwd,
            },
        }
    }

    /// Runs the pipeline over a source that is held in memory: the reader
    /// stage cuts `content` into line records, the writer stage takes them
    /// in order, and the output files are gathered instead of written.
    pub fn split(&self, content: Vec<u8>) -> (run: SplitRun)
        ensures
            files_view(run.files@) == named(*self, self.chunks(content@)),
            run.result == self.outcome(content@),
    {
        let ghost lines = lines_of(content@);
        let ghost budget = self.chunk_size as nat;
        let reader = SplitReader::new(content);
        let records = reader.stream();
        let mut writer = SplitWriter::new(self);
        let mut files: Vec<OutputFile> = Vec::new();
        let mut open_path = String::new();
        let mut open_content: Vec<u8> = Vec::new();
        let n = records.len();
        let mut i: usize = 0;
        proof {
            lemma_lines_are_whole(content@);
            assert(contents(records@).len() == lines.len() + 1);
            assert(lines.take(0) =~= Seq::<Seq<u8>>::empty());
        }
        loop
            invariant
                i < n,
                lines == lines_of(content@),
                budget == self.chunk_size as nat,
                contents(records@) == lines.push(Seq::<u8>::empty()),
                n == records@.len(),
                n == lines.len() + 1,
                forall|j: int| 0 <= j < lines.len() ==> (#[trigger] lines[j]).len() > 0,
                writer.run() == *self,
                self.under_way(lines, i as int, files@, open_path@, open_content@, writer@),
            decreases n - i,
        {
            let line = &records[i];
            let ghost before = lines.take(i as int);
            proof {
                assert(line@ == contents(records@)[i as int]);
                if i < lines.len() {
                    assert(line@ == lines[i as int]);
                    lemma_pack_push(before, lines[i as int], budget);
                    assert(lines.take(i + 1) =~= before.push(lines[i as int]));
                } else {
                    assert(line@ =~= Seq::<u8>::empty());
                    assert(before =~= lines);
                }
                lemma_first_oversized(lines, budget);
            }
            let ghost chunks = pack(before, budget);
            let ghost closed = files_view(files@);
            let ghost path_was = open_path@;
            let ghost content_was = open_content@;
            proof {
                if i > 0 {
                    let all = closed.push((path_was, content_was));
                    assert(all.len() == chunks.len());
                    assert(all[chunks.len() - 1] == named(*self, chunks)[chunks.len() - 1]);
                    assert forall|k: int| 0 <= k < closed.len() implies closed[k] == named(
                        *self,
                        chunks,
                    )[k] by {
                        assert(all[k] == closed[k]);
                    }
                }
            }
            match writer.accept_line(line) {
                Err(e) => {
                    proof {
                        lemma_first_oversized_at(lines, budget, i as int);
                    }
                    if i > 0 {
                        files.push(OutputFile { path: open_path, content: open_content });
                    }
                    assert(files_view(files@) =~= named(*self, self.chunks(content@)));
                    return SplitRun { files, result: Err(e) };
                },
                Ok(WriterAction::Finish { .. }) => {
                    if i > 0 {
                        files.push(OutputFile { path: open_path, content: open_content });
                    }
                    assert(files_view(files@) =~= named(*self, self.chunks(content@)));
                    return SplitRun { files, result: Ok(()) };
                },
                Ok(WriterAction::Open { file_num }) => {
                    match new_writer_path(file_num, self) {
                        Err(e) => {
                            assert(files_view(files@) =~= named(*self, self.chunks(content@)));
                            return SplitRun { files, result: Err(e) };
                        },
                        Ok(path) => {
                            open_path = path;
                            open_content = slice_to_vec(line.as_bytes());
                            assert(files_view(files@).push((open_path@, open_content@)) =~= named(
                                *self,
                                pack(lines.take(i + 1), budget),
                            ));
                        },
                    }
                },
                Ok(WriterAction::Roll { file_num }) => {
                    files.push(OutputFile { path: open_path, content: open_content });
                    assert(files_view(files@) =~= closed.push((path_was, content_was)));
                    match new_writer_path(file_num, self) {
                        Err(e) => {
                            return SplitRun { files, result: Err(e) };
                        },
                        Ok(path) => {
                            open_path = path;
                            open_content = slice_to_vec(line.as_bytes());
                            assert(files_view(files@).push((open_path@, open_content@)) =~= named(
                                *self,
                                pack(lines.take(i + 1), budget),
                            ));
                        },
                    }
                },
                Ok(WriterAction::Append) => {
                    append_bytes(&mut open_content, line.as_bytes());
                    assert(files_view(files@).push((open_path@, open_content@)) =~= named(
                        *self,
                        pack(lines.take(i + 1), budget),
                    ));
                },
            }
            proof {
                assert forall|j: int| 0 <= j < lines.take(i + 1).len() implies (
                #[trigger] lines.take(i + 1)[j]).len() <= budget by {
                    if j < i {
                        assert(lines.take(i + 1)[j] == before[j]);
                    }
                }
            }
            i = i + 1;
        }
    }
}

/// Adds `bytes` to the end of `buffer`.
fn append_bytes(buffer: &mut Vec<u8>, bytes: &[u8])
    ensures
        final(buffer)@ == old(buffer)@ + bytes@,
{
    let mut k: usize = 0;
    while k < bytes.len()
        invariant
            k <= bytes@.len(),
            buffer@ == old(buffer)@ + bytes@.subrange(0, k as int),
        decreases bytes@.len() - k,
    {
        buffer.push(bytes[k]);
        assert(buffer@ =~= old(buffer)@ + bytes@.subrange(0, k + 1));
        k = k + 1;
    }
    assert(bytes@.subrange(0, k as int) =~= bytes@);
}

/// The path of output file number `file_num`, or nothing where the source
/// path has no final component.
pub fn derive_new_path(file_num: u64, splitter: &Splitter) -> (path: Option<String>)
    ensures
        match path {
            Some(path) => output_path(*splitter, file_num as nat) == Some(path@),
            None => output_path(*splitter, file_num as nat) is None,
        },
{
    match file_name(splitter.read.as_str()) {
        None => None,
        Some(base) => {
            let mut name = decimal_string(file_num);
            proof {
                reveal_strlit("_");
            }
            name.append("_");
            name.append(base.as_str());
            assert(name@ =~= numbered_name(file_num as nat, base@));
            Some(join(splitter.write_dir.as_str(), name.as_str()))
        },
    }
}

/// The path to open output file number `file_num` under, or the error that
/// says that there is none.
pub fn new_writer_path(file_num: u64, splitter: &Splitter) -> (r: Result<String, SplitterError>)
    ensures
        match r {
            Ok(path) => output_path(*splitter, file_num as nat) == Some(path@),
            Err(e) => e is InvalidFilename && output_path(*splitter, file_num as nat) is None,
        },
{
    if let Some(new_path) = derive_new_path(file_num, splitter) {
        return Ok(new_path);
    }
    Err(SplitterError::InvalidFilename)
}

} // verus!
