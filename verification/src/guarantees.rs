//! What holds of every run of the pipeline. The first group is about the
//! writer alone, whoever feeds it records and carries out its actions; the
//! second is about whole runs over a source, as `Splitter::split` is
//! specified to make them.

use vstd::prelude::*;
use crate::chunk::{
    all_fit, first_oversized, group, lemma_first_oversized, lemma_group_covers,
    lemma_pack_ends, lemma_pack_is_greedy, lemma_pack_keeps_bytes, lemma_pack_push,
    lemma_pack_within_budget, pack,
};
use crate::error::SplitterError;
use crate::line::{
    is_terminated, is_whole_line, lemma_lines_are_whole, lemma_lines_keep_bytes, lines_of,
};
use crate::paths::path_file_name;
use crate::splitter::Splitter;
use crate::writer::{is_written, replay, written_count, WriterState};

verus! {

/// What the writer has done after any records have arrived, whoever feeds it
/// and carries out its actions. The records that it has written are those
/// before the first that is the sentinel or too long; the output files hold
/// the chunks of exactly those records; the writer counts the files and
/// knows how many bytes the open one holds; and it stands where the first
/// record that was not written has left it.
pub proof fn lemma_writer_replay(budget: u32, records: Seq<Seq<u8>>)
    ensures
        ({
            let count = written_count(records, budget as nat) as int;
            let (writer, files) = replay(budget, records);
            &&& 0 <= count <= records.len()
            &&& forall|i: int|
                0 <= i < count ==> is_written(#[trigger] records[i], budget as nat)
            &&& count < records.len() ==> !is_written(records[count], budget as nat)
            &&& files == pack(records.take(count), budget as nat)
            &&& writer.budget == budget
            &&& writer.wf()
            &&& writer.file_num == files.len()
            &&& writer.progress == if files.len() > 0 {
                files.last().len()
            } else {
                0
            }
            &&& writer.state == if count == records.len() {
                if count == 0 {
                    WriterState::AwaitingFirst
                } else {
                    WriterState::Writing
                }
            } else if records[count].len() == 0 {
                WriterState::Done
            } else {
                WriterState::Failed
            }
        }),
    decreases records.len(),
{
    let limit = budget as nat;
    if records.len() == 0 {
        assert(records.take(0) =~= records);
        assert(pack(records, limit) =~= Seq::<Seq<u8>>::empty());
    } else {
        let front = records.drop_last();
        let record = records.last();
        let before = written_count(front, limit) as int;
        lemma_writer_replay(budget, front);
        assert forall|i: int| 0 <= i < before implies is_written(
            #[trigger] records[i],
            limit,
        ) by {
            assert(front[i] == records[i]);
        }
        if before < front.len() {
            assert(front[before] == records[before]);
            assert(records.take(before) =~= front.take(before));
        } else {
            assert(front.take(before) =~= front);
            let chunks = pack(front, limit);
            if is_written(record, limit) {
                lemma_pack_push(front, record, limit);
                assert(front.push(record) =~= records);
                assert(records.take(records.len() as int) =~= records);
                let now = pack(records, limit);
                assert(now.last() == now[now.len() - 1]);
                if chunks.len() > 0 {
                    assert(chunks.last() == chunks[chunks.len() - 1]);
                }
            } else {
                assert(records.take(before) =~= front);
            }
        }
    }
}

/// Where every record fits the budget and the sentinel follows, the writer
/// finishes, and the output files put end to end are the records put end to
/// end: every record is written once, in the order of arrival.
pub proof fn lemma_writer_keeps_bytes(budget: u32, records: Seq<Seq<u8>>)
    requires
        forall|i: int| 0 <= i < records.len() ==> is_written(#[trigger] records[i], budget as nat),
    ensures
        replay(budget, records.push(Seq::empty())).0.state is Done,
        replay(budget, records.push(Seq::empty())).1 == pack(records, budget as nat),
        replay(budget, records.push(Seq::empty())).1.flatten() == records.flatten(),
{
    let stream = records.push(Seq::empty());
    let count = written_count(stream, budget as nat) as int;
    lemma_writer_replay(budget, stream);
    if count < records.len() {
        assert(stream[count] == records[count]);
    }
    assert(stream.take(count) =~= records);
    lemma_pack_keeps_bytes(records, budget as nat);
}

/// Whatever records arrive, no output file is larger than the budget.
pub proof fn lemma_writer_within_budget(budget: u32, records: Seq<Seq<u8>>)
    ensures
        forall|k: int|
            0 <= k < replay(budget, records).1.len() ==> (#[trigger] replay(
                budget,
                records,
            ).1[k]).len() <= budget,
{
    let count = written_count(records, budget as nat) as int;
    lemma_writer_replay(budget, records);
    lemma_pack_within_budget(records.take(count), budget as nat);
}

/// Whatever records arrive, no record is split over two output files: the
/// records that are written fall into runs that follow one another, none of
/// them empty, and each output file is one run put end to end.
pub proof fn lemma_writer_keeps_records_whole(budget: u32, records: Seq<Seq<u8>>)
    ensures
        ({
            let count = written_count(records, budget as nat) as int;
            let runs = group(records.take(count), budget as nat);
            let files = replay(budget, records).1;
            &&& runs.flatten() == records.take(count)
            &&& runs.len() == files.len()
            &&& forall|k: int|
                0 <= k < files.len() ==> #[trigger] files[k] == runs[k].flatten() && runs[k].len()
                    > 0
        }),
{
    let count = written_count(records, budget as nat) as int;
    lemma_writer_replay(budget, records);
    lemma_group_covers(records.take(count), budget as nat);
}

/// Where records that are not empty arrive and the sentinel follows, the
/// writer fails exactly when one of the records is longer than the budget,
/// and finishes otherwise; a record of exactly the budget is written.
pub proof fn lemma_writer_fails_on_oversized(budget: u32, records: Seq<Seq<u8>>)
    requires
        forall|i: int| 0 <= i < records.len() ==> (#[trigger] records[i]).len() > 0,
    ensures
        replay(budget, records.push(Seq::empty())).0.state is Failed <==> !all_fit(
            records,
            budget as nat,
        ),
        replay(budget, records.push(Seq::empty())).0.state is Done <==> all_fit(
            records,
            budget as nat,
        ),
{
    let stream = records.push(Seq::empty());
    let count = written_count(stream, budget as nat) as int;
    lemma_writer_replay(budget, stream);
    if count < records.len() {
        assert(stream[count] == records[count]);
        assert(!all_fit(records, budget as nat));
    } else {
        assert forall|i: int| 0 <= i < records.len() implies (#[trigger] records[i]).len()
            <= budget by {
            assert(stream[i] == records[i]);
            assert(is_written(stream[i], budget as nat));
        }
    }
}

/// A run succeeds exactly when every line of the source fits the budget and
/// the output files, if the source has any line, can be named.
pub proof fn lemma_success(splitter: Splitter, content: Seq<u8>)
    ensures
        splitter.outcome(content) is Ok <==> {
            &&& all_fit(lines_of(content), splitter.chunk_size as nat)
            &&& (lines_of(content).len() > 0 ==> path_file_name(splitter.read@) is Some)
        },
{
    lemma_first_oversized(lines_of(content), splitter.chunk_size as nat);
}

/// After a run that succeeds, the output files put end to end in the order
/// of their numbers are the source, byte for byte.
pub proof fn lemma_round_trip(splitter: Splitter, content: Seq<u8>)
    requires
        splitter.outcome(content) is Ok,
    ensures
        splitter.chunks(content).flatten() == content,
{
    lemma_pack_keeps_bytes(splitter.written(content), splitter.chunk_size as nat);
    lemma_lines_keep_bytes(content);
}

/// After any run, failed or not, the output files put end to end are the
/// lines of the source up to some line: what was written is valid, and no
/// byte of it is lost, added or moved.
pub proof fn lemma_output_is_a_prefix(splitter: Splitter, content: Seq<u8>)
    ensures
        0 <= splitter.written(content).len() <= lines_of(content).len(),
        splitter.written(content) == lines_of(content).take(
            splitter.written(content).len() as int,
        ),
        splitter.chunks(content).flatten() == splitter.written(content).flatten(),
{
    let lines = lines_of(content);
    lemma_first_oversized(lines, splitter.chunk_size as nat);
    lemma_pack_keeps_bytes(splitter.written(content), splitter.chunk_size as nat);
    assert(lines.take(lines.len() as int) =~= lines);
    assert(lines.take(0) =~= Seq::<Seq<u8>>::empty());
}

/// No output file is larger than the budget, whether the run succeeds or
/// fails.
pub proof fn lemma_files_within_budget(splitter: Splitter, content: Seq<u8>)
    ensures
        forall|k: int|
            0 <= k < splitter.chunks(content).len() ==> (#[trigger] splitter.chunks(
                content,
            )[k]).len() <= splitter.chunk_size,
{
    let lines = lines_of(content);
    let budget = splitter.chunk_size as nat;
    lemma_first_oversized(lines, budget);
    lemma_pack_within_budget(splitter.written(content), budget);
}

/// No output file holds a part of a line. The lines that are written go to
/// the files in their order, each line whole and to exactly one file; a file
/// is its lines put end to end and has at least one; and every line written
/// is a whole line of the source, which ends with its line feed unless it is
/// the last line of the source.
pub proof fn lemma_files_hold_whole_lines(splitter: Splitter, content: Seq<u8>)
    ensures
        ({
            let lines_by_file = group(splitter.written(content), splitter.chunk_size as nat);
            let files = splitter.chunks(content);
            &&& lines_by_file.flatten() == splitter.written(content)
            &&& lines_by_file.len() == files.len()
            &&& forall|k: int|
                0 <= k < files.len() ==> #[trigger] files[k] == lines_by_file[k].flatten()
                    && lines_by_file[k].len() > 0
        }),
        forall|i: int|
            0 <= i < splitter.written(content).len() ==> {
                &&& (#[trigger] splitter.written(content)[i]) == lines_of(content)[i]
                &&& is_whole_line(lines_of(content)[i])
                &&& i < lines_of(content).len() - 1 ==> is_terminated(lines_of(content)[i])
            },
{
    let budget = splitter.chunk_size as nat;
    lemma_group_covers(splitter.written(content), budget);
    lemma_output_is_a_prefix(splitter, content);
    lemma_lines_are_whole(content);
}

/// No output file is empty, and every output file but the last ends with a
/// line feed: a file always ends where a line ends.
pub proof fn lemma_files_end_with_lines(splitter: Splitter, content: Seq<u8>)
    ensures
        forall|k: int|
            0 <= k < splitter.chunks(content).len() ==> (#[trigger] splitter.chunks(
                content,
            )[k]).len() > 0,
        forall|k: int|
            0 <= k < splitter.chunks(content).len() - 1 ==> is_terminated(
                #[trigger] splitter.chunks(content)[k],
            ),
{
    let written = splitter.written(content);
    lemma_files_hold_whole_lines(splitter, content);
    lemma_output_is_a_prefix(splitter, content);
    assert forall|i: int| 0 <= i < written.len() implies (#[trigger] written[i]).len() > 0 by {
        assert(written[i] == lines_of(content)[i]);
        assert(is_whole_line(lines_of(content)[i]));
    }
    assert forall|i: int| 0 <= i < written.len() - 1 implies is_terminated(
        #[trigger] written[i],
    ) by {
        assert(written[i] == lines_of(content)[i]);
    }
    lemma_pack_ends(written, splitter.chunk_size as nat);
}

/// An output file is closed only when the next line would not fit: together
/// with the first line of the file behind it, a file would exceed the budget.
pub proof fn lemma_files_are_full(splitter: Splitter, content: Seq<u8>)
    ensures
        ({
            let lines_by_file = group(splitter.written(content), splitter.chunk_size as nat);
            let files = splitter.chunks(content);
            forall|k: int|
                0 < k < files.len() ==> files[k - 1].len() + (
                #[trigger] lines_by_file[k]).first().len() > splitter.chunk_size
        }),
{
    lemma_pack_is_greedy(splitter.written(content), splitter.chunk_size as nat);
}

/// An empty source gives no output file, and the run succeeds.
pub proof fn lemma_empty_source(splitter: Splitter)
    ensures
        splitter.chunks(Seq::<u8>::empty()) == Seq::<Seq<u8>>::empty(),
        splitter.outcome(Seq::<u8>::empty()) is Ok,
{
    let lines = lines_of(Seq::<u8>::empty());
    assert(lines =~= Seq::<Seq<u8>>::empty());
    assert(pack(lines, splitter.chunk_size as nat) =~= Seq::<Seq<u8>>::empty());
}

/// A source with a line that is longer than the budget fails the run. Unless
/// the run has failed before for want of a name for its first output file,
/// the error is that the chunk is too large, and it names the size of the
/// first such line and the budget.
pub proof fn lemma_oversized_line_fails(splitter: Splitter, content: Seq<u8>)
    requires
        content.len() <= usize::MAX,
        !all_fit(lines_of(content), splitter.chunk_size as nat),
    ensures
        splitter.outcome(content) is Err,
        !splitter.lacks_name(content) ==> {
            &&& splitter.outcome(content) matches Err(
                SplitterError::ChunkTooLarge { size, budget },
            )
            &&& budget == splitter.chunk_size
            &&& size > budget
            &&& first_oversized(lines_of(content), budget as nat) matches Some(i)
            &&& size == lines_of(content)[i].len()
        },
{
    let lines = lines_of(content);
    lemma_first_oversized(lines, splitter.chunk_size as nat);
    if let Some(i) = first_oversized(lines, splitter.chunk_size as nat) {
        lemma_lines_keep_bytes(content);
        lines.lemma_flatten_and_flatten_alt_are_equivalent();
        lines.lemma_flatten_length_ge_single_element_length(i);
    }
}

} // verus!
