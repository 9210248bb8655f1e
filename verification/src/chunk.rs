//! How lines are gathered into chunks that respect a byte budget, and what
//! holds of the result.

use vstd::prelude::*;
use crate::line::is_terminated;

verus! {

/// The lines of each chunk. A line joins the chunk before it when the chunk
/// then still holds at most `budget` bytes; otherwise it opens a new chunk.
pub open spec fn group(lines: Seq<Seq<u8>>, budget: nat) -> Seq<Seq<Seq<u8>>>
    decreases lines.len(),
{
    if lines.len() == 0 {
        Seq::empty()
    } else {
        let before = group(lines.drop_last(), budget);
        let line = lines.last();
        if before.len() > 0 && before.last().flatten().len() + line.len() <= budget {
            before.drop_last().push(before.last().push(line))
        } else {
            before.push(seq![line])
        }
    }
}

/// The bytes of each chunk.
pub open spec fn pack(lines: Seq<Seq<u8>>, budget: nat) -> Seq<Seq<u8>> {
    group(lines, budget).map_values(|lines_of_chunk: Seq<Seq<u8>>| lines_of_chunk.flatten())
}

/// Whether no line is longer than `budget`.
pub open spec fn all_fit(lines: Seq<Seq<u8>>, budget: nat) -> bool {
    forall|i: int| 0 <= i < lines.len() ==> (#[trigger] lines[i]).len() <= budget
}

/// The index of the first line that is longer than `budget`, if there is one.
pub open spec fn first_oversized(lines: Seq<Seq<u8>>, budget: nat) -> Option<int>
    decreases lines.len(),
{
    if lines.len() == 0 {
        None
    } else {
        match first_oversized(lines.drop_last(), budget) {
            Some(i) => Some(i),
            None => if lines.last().len() > budget {
                Some(lines.len() - 1)
            } else {
                None
            },
        }
    }
}

/// `first_oversized` names a line that is too long and is preceded only by
/// lines that fit; it names none exactly when every line fits.
pub proof fn lemma_first_oversized(lines: Seq<Seq<u8>>, budget: nat)
    ensures
        first_oversized(lines, budget) is None <==> all_fit(lines, budget),
        first_oversized(lines, budget) matches Some(i) ==> {
            &&& 0 <= i < lines.len()
            &&& lines[i].len() > budget
            &&& all_fit(lines.take(i), budget)
        },
    decreases lines.len(),
{
    if lines.len() > 0 {
        let front = lines.drop_last();
        lemma_first_oversized(front, budget);
        match first_oversized(front, budget) {
            Some(i) => {
                assert(front[i] == lines[i]);
                assert(lines.take(i) =~= front.take(i));
            },
            None => {
                assert forall|j: int| 0 <= j < lines.len() - 1 implies (#[trigger] lines[j]).len()
                    <= budget by {
                    assert(front[j] == lines[j]);
                }
                assert(lines.take(lines.len() - 1) =~= front);
            },
        }
    }
}

/// Where the lines before line `i` fit the budget and line `i` does not,
/// line `i` is the first that is too long.
pub proof fn lemma_first_oversized_at(lines: Seq<Seq<u8>>, budget: nat, i: int)
    requires
        0 <= i < lines.len(),
        all_fit(lines.take(i), budget),
        lines[i].len() > budget,
    ensures
        first_oversized(lines, budget) == Some(i),
{
    lemma_first_oversized(lines, budget);
    match first_oversized(lines, budget) {
        None => {},
        Some(j) => {
            if j < i {
                assert(lines.take(i)[j] == lines[j]);
            } else if j > i {
                assert(lines.take(j)[i] == lines[i]);
            }
        },
    }
}

/// What one more line does to the chunks.
pub proof fn lemma_pack_push(lines: Seq<Seq<u8>>, line: Seq<u8>, budget: nat)
    ensures
        pack(lines.push(line), budget) == if pack(lines, budget).len() > 0 && pack(
            lines,
            budget,
        ).last().len() + line.len() <= budget {
            pack(lines, budget).drop_last().push(pack(lines, budget).last() + line)
        } else {
            pack(lines, budget).push(line)
        },
{
    let before = group(lines, budget);
    assert(lines.push(line).drop_last() =~= lines);
    if before.len() > 0 && before.last().flatten().len() + line.len() <= budget {
        before.last().lemma_flatten_push(line);
        assert(pack(lines.push(line), budget) =~= pack(lines, budget).drop_last().push(
            pack(lines, budget).last() + line,
        ));
    } else {
        Seq::<Seq<u8>>::empty().lemma_flatten_push(line);
        assert(Seq::<Seq<u8>>::empty().push(line) =~= seq![line]);
        assert(Seq::<Seq<u8>>::empty().flatten() =~= Seq::<u8>::empty());
        assert(seq![line].flatten() =~= line);
        assert(pack(lines.push(line), budget) =~= pack(lines, budget).push(line));
    }
}

/// The chunks hold the lines in their order, each line whole and in exactly
/// one chunk, and no chunk is without a line.
pub proof fn lemma_group_covers(lines: Seq<Seq<u8>>, budget: nat)
    ensures
        group(lines, budget).flatten() == lines,
        forall|k: int|
            0 <= k < group(lines, budget).len() ==> (#[trigger] group(lines, budget)[k]).len()
                > 0,
    decreases lines.len(),
{
    if lines.len() == 0 {
        assert(group(lines, budget).flatten() =~= lines);
    } else {
        let front = lines.drop_last();
        let line = lines.last();
        let before = group(front, budget);
        lemma_group_covers(front, budget);
        assert(front.push(line) =~= lines);
        if before.len() > 0 && before.last().flatten().len() + line.len() <= budget {
            assert(before.drop_last().push(before.last()) =~= before);
            before.drop_last().lemma_flatten_push(before.last());
            before.drop_last().lemma_flatten_push(before.last().push(line));
            assert(group(lines, budget).flatten() =~= lines);
        } else {
            before.lemma_flatten_push(seq![line]);
            assert(group(lines, budget).flatten() =~= lines);
        }
    }
}

/// Put end to end, the chunks are the lines put end to end: no byte is lost,
/// added or moved.
pub proof fn lemma_pack_keeps_bytes(lines: Seq<Seq<u8>>, budget: nat)
    ensures
        pack(lines, budget).flatten() == lines.flatten(),
    decreases lines.len(),
{
    if lines.len() == 0 {
        assert(pack(lines, budget) =~= lines);
    } else {
        let front = lines.drop_last();
        let line = lines.last();
        let before = pack(front, budget);
        lemma_pack_keeps_bytes(front, budget);
        lemma_pack_push(front, line, budget);
        assert(front.push(line) =~= lines);
        front.lemma_flatten_push(line);
        if before.len() > 0 && before.last().len() + line.len() <= budget {
            assert(before.drop_last().push(before.last()) =~= before);
            before.drop_last().lemma_flatten_push(before.last());
            before.drop_last().lemma_flatten_push(before.last() + line);
            assert(pack(lines, budget).flatten() =~= lines.flatten());
        } else {
            before.lemma_flatten_push(line);
        }
    }
}

/// Where every line fits the budget, every chunk does.
pub proof fn lemma_pack_within_budget(lines: Seq<Seq<u8>>, budget: nat)
    requires
        all_fit(lines, budget),
    ensures
        forall|k: int|
            0 <= k < pack(lines, budget).len() ==> (#[trigger] pack(lines, budget)[k]).len()
                <= budget,
    decreases lines.len(),
{
    if lines.len() > 0 {
        let front = lines.drop_last();
        let line = lines.last();
        assert forall|i: int| 0 <= i < front.len() implies (#[trigger] front[i]).len()
            <= budget by {
            assert(front[i] == lines[i]);
        }
        lemma_pack_within_budget(front, budget);
        lemma_pack_push(front, line, budget);
        assert(front.push(line) =~= lines);
    }
}

/// A chunk is closed only when the next line would not fit: each chunk but
/// the first begins with a line that the chunk before it had no room for.
pub proof fn lemma_pack_is_greedy(lines: Seq<Seq<u8>>, budget: nat)
    ensures
        forall|k: int|
            0 < k < group(lines, budget).len() ==> pack(lines, budget)[k - 1].len() + (
            #[trigger] group(lines, budget)[k]).first().len() > budget,
    decreases lines.len(),
{
    if lines.len() > 0 {
        let front = lines.drop_last();
        let line = lines.last();
        let before = group(front, budget);
        lemma_pack_is_greedy(front, budget);
        lemma_group_covers(front, budget);
        let now = group(lines, budget);
        assert forall|k: int| 0 < k < now.len() implies pack(lines, budget)[k - 1].len() + (
        #[trigger] now[k]).first().len() > budget by {
            if before.len() > 0 && before.last().flatten().len() + line.len() <= budget {
                if k < now.len() - 1 {
                    assert(now[k] == before[k]);
                    assert(now[k - 1] == before[k - 1]);
                } else {
                    assert(now[k].first() == before[k].first());
                    assert(now[k - 1] == before[k - 1]);
                }
            } else {
                if k < now.len() - 1 {
                    assert(now[k] == before[k]);
                    assert(now[k - 1] == before[k - 1]);
                } else {
                    assert(now[k].first() == line);
                    assert(now[k - 1] == before.last());
                }
            }
        }
    }
}

/// Where no line is empty and every line but the last ends with a line feed,
/// no chunk is empty, every chunk but the last ends with a line feed, and the
/// last chunk ends as the last line does.
pub proof fn lemma_pack_ends(lines: Seq<Seq<u8>>, budget: nat)
    requires
        forall|i: int| 0 <= i < lines.len() ==> (#[trigger] lines[i]).len() > 0,
        forall|i: int| 0 <= i < lines.len() - 1 ==> is_terminated(#[trigger] lines[i]),
    ensures
        forall|k: int|
            0 <= k < pack(lines, budget).len() ==> (#[trigger] pack(lines, budget)[k]).len() > 0,
        forall|k: int|
            0 <= k < pack(lines, budget).len() - 1 ==> is_terminated(
                #[trigger] pack(lines, budget)[k],
            ),
        lines.len() > 0 ==> pack(lines, budget).len() > 0 && pack(lines, budget).last().len() > 0
            && pack(lines, budget).last().last() == lines.last().last(),
    decreases lines.len(),
{
    if lines.len() > 0 {
        let front = lines.drop_last();
        let line = lines.last();
        assert forall|i: int| 0 <= i < front.len() implies (#[trigger] front[i]).len() > 0 by {
            assert(front[i] == lines[i]);
        }
        assert forall|i: int| 0 <= i < front.len() implies is_terminated(#[trigger] front[i]) by {
            assert(front[i] == lines[i]);
        }
        lemma_pack_ends(front, budget);
        lemma_pack_push(front, line, budget);
        assert(front.push(line) =~= lines);
        let before = pack(front, budget);
        let now = pack(lines, budget);
        if front.len() > 0 {
            assert(is_terminated(front[front.len() - 1]));
            assert(is_terminated(before[before.len() - 1]));
        }
        assert forall|k: int| 0 <= k < now.len() implies (#[trigger] now[k]).len() > 0 by {
            if k < before.len() - 1 {
                assert(now[k] == before[k]);
            } else if k < before.len() && k < now.len() - 1 {
                assert(now[k] == before[k]);
            }
        }
        assert forall|k: int| 0 <= k < now.len() - 1 implies is_terminated(#[trigger] now[k]) by {
            assert(now[k] == before[k]);
        }
        assert(now.last() == now[now.len() - 1]);
    }
}

} // verus!
