//! Line records and the reader stage that cuts a source into them.

use vstd::prelude::*;
use vstd::slice::{slice_subrange, slice_to_vec};

verus! {

/// The byte that terminates a line.
pub const LINE_FEED: u8 = 10;

/// One line of the source, terminator included, together with its length in
/// bytes. The record of length zero is the end-of-stream sentinel.
#[derive(Debug)]
pub struct Line {
    content: Vec<u8>,
    size: usize,
}

impl View for Line {
    type V = Seq<u8>;

    /// The bytes of the line.
    closed spec fn view(&self) -> Seq<u8> {
        self.content@
    }
}

impl Line {
    #[verifier::type_invariant]
    spec fn size_is_length(&self) -> bool {
        self.size == self.content@.len()
    }

    /// Whether the record is the end-of-stream sentinel.
    pub open spec fn spec_is_sentinel(&self) -> bool {
        self@.len() == 0
    }

    /// A record for `content`, whose length in bytes is `size`.
    pub fn new(content: Vec<u8>, size: usize) -> (line: Line)
        requires
            size == content@.len(),
        ensures
            line@ == content@,
    {
        Line { content, size }
    }

    /// The record that signals the end of the stream.
    pub fn sentinel() -> (line: Line)
        ensures
            line@ == Seq::<u8>::empty(),
            line.spec_is_sentinel(),
    {
        Line { content: Vec::new(), size: 0 }
    }

    /// The length of the line in bytes.
    pub fn size(&self) -> (size: usize)
        ensures
            size == self@.len(),
    {
        proof {
            use_type_invariant(self);
        }
        self.size
    }

    /// Whether the record is the end-of-stream sentinel.
    #[verifier::when_used_as_spec(spec_is_sentinel)]
    pub fn is_sentinel(&self) -> (sentinel: bool)
        ensures
            sentinel == self.spec_is_sentinel(),
    {
        proof {
            use_type_invariant(self);
        }
        self.size == 0
    }

    /// The bytes of the line, as they are written to an output file.
    pub fn as_bytes(&self) -> (bytes: &[u8])
        ensures
            bytes@ == self@,
    {
        self.content.as_slice()
    }
}

/// What travels through the handoff queue from the reader to the writer.
#[derive(Debug)]
pub enum Handoff {
    /// The next record of the stream; the record of length zero ends it.
    Record(Line),
    /// The stream broke off: the reader failed, or the queue was closed
    /// before the sentinel came. The text says what is known of the cause.
    Failure(String),
}

impl Handoff {
    /// What the reader stage hands on after it has tried to read one line,
    /// and whether it then reads on. A line goes on as a record, and the
    /// reader reads on; a read that found nothing more goes on as the
    /// sentinel, and a failed read as a failure: both end the stage.
    pub fn after_read(read: Result<Vec<u8>, String>) -> (r: (Handoff, bool))
        ensures
            match read {
                Ok(content) => r.0 matches Handoff::Record(line) && line@ == content@ && r.1 == (
                content@.len() > 0),
                Err(reason) => r.0 == Handoff::Failure(reason) && !r.1,
            },
    {
        match read {
            Ok(content) => {
                let size = content.len();
                (Handoff::Record(Line::new(content, size)), size > 0)
            },
            Err(reason) => (Handoff::Failure(reason), false),
        }
    }
}

/// The bytes of each record of `records`, in order.
pub open spec fn contents(records: Seq<Line>) -> Seq<Seq<u8>> {
    Seq::new(records.len(), |i: int| records[i]@)
}

/// The contents of a run of records grow by the bytes of each record that is
/// added.
pub proof fn lemma_contents_push(records: Seq<Line>, line: Line)
    ensures
        contents(records.push(line)) == contents(records).push(line@),
{
    assert(contents(records.push(line)) =~= contents(records).push(line@));
}

/// Where the line that starts at `start` ends: just behind the first line
/// feed at or after `start`, or at the end of `content` if none follows.
pub open spec fn line_end(content: Seq<u8>, start: int) -> int
    decreases content.len() - start,
{
    if start < 0 || start >= content.len() {
        content.len() as int
    } else if content[start] == LINE_FEED {
        start + 1
    } else {
        line_end(content, start + 1)
    }
}

/// The lines of `content` from `start` on: each a maximal run of bytes up to
/// and including the next line feed, the last one possibly unterminated.
pub open spec fn lines_from(content: Seq<u8>, start: int) -> Seq<Seq<u8>>
    decreases content.len() - start,
{
    let end = line_end(content, start);
    // A line is never empty and ends inside `content`
    // (`lemma_line_end_bounds`); the second test is there for termination
    // alone.
    if 0 <= start < content.len() && start < end <= content.len() {
        seq![content.subrange(start, end)] + lines_from(content, end)
    } else {
        Seq::empty()
    }
}

/// The lines of `content`.
pub open spec fn lines_of(content: Seq<u8>) -> Seq<Seq<u8>> {
    lines_from(content, 0)
}

/// Whether `line` is one whole line: not empty, and with no line feed
/// anywhere but at its very end.
pub open spec fn is_whole_line(line: Seq<u8>) -> bool {
    &&& line.len() > 0
    &&& forall|i: int| 0 <= i < line.len() - 1 ==> #[trigger] line[i] != LINE_FEED
}

/// Whether `line` ends with a line feed.
pub open spec fn is_terminated(line: Seq<u8>) -> bool {
    line.len() > 0 && line.last() == LINE_FEED
}

/// A line that starts inside `content` is not empty, ends inside `content`,
/// holds no line feed before its last byte, and ends with a line feed unless
/// it runs to the end of `content`.
pub proof fn lemma_line_end_bounds(content: Seq<u8>, start: int)
    requires
        0 <= start < content.len(),
    ensures
        start < line_end(content, start) <= content.len(),
        forall|i: int| start <= i < line_end(content, start) - 1 ==> content[i] != LINE_FEED,
        line_end(content, start) < content.len() ==> content[line_end(content, start) - 1]
            == LINE_FEED,
    decreases content.len() - start,
{
    if content[start] != LINE_FEED {
        if start + 1 < content.len() {
            lemma_line_end_bounds(content, start + 1);
        } else {
            assert(line_end(content, start + 1) == content.len());
        }
    }
}

/// The lines from `start` on are the line at `start` followed by the lines
/// behind it.
pub proof fn lemma_lines_from_unfold(content: Seq<u8>, start: int)
    requires
        0 <= start < content.len(),
    ensures
        lines_from(content, start) == seq![content.subrange(start, line_end(content, start))]
            + lines_from(content, line_end(content, start)),
{
    lemma_line_end_bounds(content, start);
}

/// Put end to end, the lines from `start` on are the bytes from `start` on.
pub proof fn lemma_lines_from_keep_bytes(content: Seq<u8>, start: int)
    requires
        0 <= start <= content.len(),
    ensures
        lines_from(content, start).flatten() == content.subrange(start, content.len() as int),
    decreases content.len() - start,
{
    if start < content.len() {
        let end = line_end(content, start);
        lemma_line_end_bounds(content, start);
        lemma_lines_from_keep_bytes(content, end);
        let here = lines_from(content, start);
        assert(here.first() == content.subrange(start, end));
        assert(here.drop_first() =~= lines_from(content, end));
        assert(here.flatten() =~= content.subrange(start, content.len() as int));
    } else {
        assert(lines_from(content, start).flatten() =~= content.subrange(
            start,
            content.len() as int,
        ));
    }
}

/// Put end to end, the lines of a source are the source.
pub proof fn lemma_lines_keep_bytes(content: Seq<u8>)
    ensures
        lines_of(content).flatten() == content,
{
    lemma_lines_from_keep_bytes(content, 0);
    assert(content.subrange(0, content.len() as int) =~= content);
}

/// Every line from `start` on is whole, and every one but the last ends with
/// a line feed.
pub proof fn lemma_lines_from_are_whole(content: Seq<u8>, start: int)
    requires
        0 <= start <= content.len(),
    ensures
        forall|i: int|
            0 <= i < lines_from(content, start).len() ==> is_whole_line(
                #[trigger] lines_from(content, start)[i],
            ),
        forall|i: int|
            0 <= i < lines_from(content, start).len() - 1 ==> is_terminated(
                #[trigger] lines_from(content, start)[i],
            ),
    decreases content.len() - start,
{
    if start < content.len() {
        let end = line_end(content, start);
        lemma_line_end_bounds(content, start);
        lemma_lines_from_are_whole(content, end);
        let here = lines_from(content, start);
        let rest = lines_from(content, end);
        let line = content.subrange(start, end);
        assert(is_whole_line(line)) by {
            assert forall|i: int| 0 <= i < line.len() - 1 implies #[trigger] line[i]
                != LINE_FEED by {
                assert(line[i] == content[start + i]);
            }
        }
        assert forall|i: int| 0 <= i < here.len() implies is_whole_line(#[trigger] here[i]) by {
            if i > 0 {
                assert(here[i] == rest[i - 1]);
            }
        }
        assert forall|i: int| 0 <= i < here.len() - 1 implies is_terminated(#[trigger] here[i]) by {
            if i > 0 {
                assert(here[i] == rest[i - 1]);
            } else {
                assert(rest.len() > 0);
                assert(end < content.len());
                assert(line.last() == content[end - 1]);
            }
        }
    }
}

/// Every line of a source is whole, and every one but the last ends with a
/// line feed.
pub proof fn lemma_lines_are_whole(content: Seq<u8>)
    ensures
        forall|i: int|
            0 <= i < lines_of(content).len() ==> is_whole_line(#[trigger] lines_of(content)[i]),
        forall|i: int|
            0 <= i < lines_of(content).len() - 1 ==> is_terminated(
                #[trigger] lines_of(content)[i],
            ),
{
    lemma_lines_from_are_whole(content, 0);
}

/// Finds the end of the line that starts at `start`.
pub fn next_line_end(content: &[u8], start: usize) -> (end: usize)
    requires
        start < content@.len(),
    ensures
        end == line_end(content@, start as int),
        start < end <= content@.len(),
{
    let mut i: usize = start;
    while i < content.len() && content[i] != LINE_FEED
        invariant
            start <= i <= content@.len(),
            line_end(content@, i as int) == line_end(content@, start as int),
        decreases content@.len() - i,
    {
        i = i + 1;
    }
    proof {
        lemma_line_end_bounds(content@, start as int);
    }
    if i < content.len() {
        i + 1
    } else {
        i
    }
}

/// The reader stage over a source that is held in memory.
#[derive(Debug)]
pub struct SplitReader {
    read: Vec<u8>,
}

impl SplitReader {
    /// The source that the reader cuts into lines.
    pub closed spec fn source(&self) -> Seq<u8> {
        self.read@
    }

    /// A reader over `read`.
    pub fn new(read: Vec<u8>) -> (reader: SplitReader)
        ensures
            reader.source() == read@,
    {
        SplitReader { read }
    }

    /// Produces every line of the source as a record, in order, followed by
    /// the end-of-stream sentinel.
    pub fn stream(&self) -> (records: Vec<Line>)
        ensures
            contents(records@) == lines_of(self.source()).push(Seq::<u8>::empty()),
    {
        let source = self.read.as_slice();
        let mut records: Vec<Line> = Vec::new();
        let mut start: usize = 0;
        while start < source.len()
            invariant
                start <= source@.len(),
                source@ == self.source(),
                contents(records@) + lines_from(source@, start as int) == lines_of(source@),
            decreases source@.len() - start,
        {
            let end = next_line_end(source, start);
            let content = slice_to_vec(slice_subrange(source, start, end));
            let size = content.len();
            let line = Line::new(content, size);
            proof {
                lemma_lines_from_unfold(source@, start as int);
                lemma_contents_push(records@, line);
                assert(contents(records@) + (seq![line@] + lines_from(source@, end as int))
                    =~= contents(records@).push(line@) + lines_from(source@, end as int));
            }
            records.push(line);
            start = end;
        }
        let last = Line::sentinel();
        proof {
            lemma_contents_push(records@, last);
            assert(contents(records@) + lines_from(source@, start as int) =~= contents(records@));
        }
        records.push(last);
        records
    }
}

} // verus!
