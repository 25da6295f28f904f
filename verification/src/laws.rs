use vstd::prelude::*;
use crate::buffer::{Buf, BufState, BytesState, IdsState};
use crate::line::{
    ends_in_lf, first_lf, first_line, is_line, lemma_first_lf, law_line_and_rest, rest, LF,
};
use crate::pair::track;
use crate::reader::{line_read, ReaderState};

verus! {

/// A run of successful reads from one reader: `states[i]` is the reader
/// before the read number `i` and `states[i + 1]` after it, and `lines[i]`
/// is what that read returned.
pub open spec fn is_run(states: Seq<ReaderState>, lines: Seq<BytesState>) -> bool {
    &&& states.len() == lines.len() + 1
    &&& forall|i: int|
        0 <= i < lines.len() ==> line_read(states[i], states[i + 1], #[trigger] lines[i])
}

/// The bytes of `lines`, one line after the other.
pub open spec fn joined(lines: Seq<BytesState>) -> Seq<u8>
    decreases lines.len(),
{
    if lines.len() == 0 {
        Seq::empty()
    } else {
        joined(lines.drop_last()) + lines.last().bytes
    }
}

/// The buffers that `lines` came from, line by line.
pub open spec fn touched(lines: Seq<BytesState>) -> Seq<Buf> {
    lines.map_values(|line: BytesState| line.buf)
}

/// The list that a session holds after it read lines from the buffers
/// `bufs`, in that order.
pub open spec fn tracked_list(bufs: Seq<Buf>) -> Seq<Buf>
    decreases bufs.len(),
{
    if bufs.len() == 0 {
        Seq::empty()
    } else {
        track(tracked_list(bufs.drop_last()), bufs.last())
    }
}

/// Every distinct buffer of `bufs` once, in the order of first appearance.
pub open spec fn firsts(bufs: Seq<Buf>) -> Seq<Buf>
    decreases bufs.len(),
{
    if bufs.len() == 0 {
        Seq::empty()
    } else if bufs.drop_last().contains(bufs.last()) {
        firsts(bufs.drop_last())
    } else {
        firsts(bufs.drop_last()).push(bufs.last())
    }
}

/// No buffer of `bufs` comes back after another one was read from.
pub open spec fn in_runs(bufs: Seq<Buf>) -> bool {
    forall|i: int, j: int, k: int|
        0 <= i <= k <= j < bufs.len() && bufs[i] == bufs[j] ==> #[trigger] bufs[i] == bufs[k]
            && #[trigger] bufs[j] == #[trigger] bufs[k]
}

/// The lines that a reader returns, joined in the order in which it returned
/// them and followed by what it has yet to hand out, are the bytes that it
/// had to hand out at the start: nothing is lost, doubled or moved.
pub proof fn law_lines_reassemble(states: Seq<ReaderState>, lines: Seq<BytesState>)
    requires
        is_run(states, lines),
    ensures
        joined(lines) + states.last().remaining() == states[0].remaining(),
        states.last().remaining().len() == 0 ==> joined(lines) == states[0].remaining(),
    decreases lines.len(),
{
    let n = lines.len() as int;
    if n > 0 {
        let before = states.drop_last();
        let earlier = lines.drop_last();
        law_lines_reassemble(before, earlier);
        assert(joined(lines) + states.last().remaining() =~= joined(earlier) + (first_line(
            states[n - 1].remaining(),
        ) + rest(states[n - 1].remaining())));
    }
}

/// A line holds a line feed nowhere but at its end. A line that more bytes
/// follow ends in one, and a reader with bytes to hand out returns a line
/// that is not empty.
pub proof fn law_line_shape(pre: ReaderState, post: ReaderState, line: BytesState)
    requires
        line_read(pre, post, line),
    ensures
        is_line(line.bytes),
        post.remaining().len() > 0 ==> ends_in_lf(line.bytes),
        pre.remaining().len() > 0 ==> line.bytes.len() > 0,
{
    lemma_first_lf(pre.remaining());
}

/// A line without a line feed at its end is the last of its stream: the
/// read that returns it has seen the stream end.
pub proof fn law_last_line(pre: ReaderState, post: ReaderState, line: BytesState)
    requires
        line_read(pre, post, line),
        !ends_in_lf(line.bytes),
    ensures
        post.at_end(),
        post.remaining().len() == 0,
{
}

/// A read from a reader that has seen its stream end returns an empty line
/// from the buffer that the reader had, and leaves that buffer as it was.
pub proof fn law_read_at_end(pre: ReaderState, post: ReaderState, line: BytesState)
    requires
        pre.at_end(),
        line_read(pre, post, line),
    ensures
        line.bytes.len() == 0,
        line.buf@ == pre.buf.id,
        pre.buf.agrees(post.buf),
        post.at_end(),
{
}

/// Once a read has returned a line without a line feed at its end, every
/// later read returns an empty line from the same buffer.
pub proof fn law_reads_after_end(
    states: Seq<ReaderState>,
    lines: Seq<BytesState>,
    i: int,
    j: int,
)
    requires
        is_run(states, lines),
        0 <= i < j < lines.len(),
        !ends_in_lf(lines[i].bytes),
    ensures
        lines[j].bytes.len() == 0,
        lines[j].buf == lines[i].buf,
        states[j + 1].at_end(),
    decreases j - i,
{
    if j > i + 1 {
        law_reads_after_end(states, lines, i, j - 1);
    }
    Buf::lemma_view_injective(lines[j].buf, lines[j - 1].buf);
}

/// The buffer that takes over from a full one begins with the bytes that
/// were available in the old one, unchanged; nothing of it is consumed, and
/// its number is one that no buffer was made with before.
pub proof fn law_growth_carries_over(buf: BufState, capacity: nat, ids: IdsState)
    requires
        buf.wf(),
        buf.available().len() <= capacity,
    ensures
        buf.grow(capacity, ids).family == ids.family,
        buf.grow(capacity, ids).id == ids.next,
        buf.grow(capacity, ids).capacity() == capacity,
        buf.grow(capacity, ids).consumed == 0,
        buf.grow(capacity, ids).available() == buf.available(),
        buf.grow(capacity, ids).storage.take(buf.available().len() as int) == buf.available(),
{
}

/// Of two lines of a run the later one comes from the same buffer or from a
/// later one, and from the same buffer exactly when no read after the first
/// of the two, up to the second, has moved to a new buffer.
pub proof fn law_buffer_identity(
    states: Seq<ReaderState>,
    lines: Seq<BytesState>,
    i: int,
    j: int,
)
    requires
        is_run(states, lines),
        0 <= i <= j < lines.len(),
    ensures
        lines[i].buf.family() == lines[j].buf.family(),
        lines[i].buf@ <= lines[j].buf@,
        (lines[i].buf == lines[j].buf) <==> (forall|k: int|
            i < k <= j ==> states[k + 1].buf.id == (#[trigger] states[k]).buf.id),
    decreases j - i,
{
    Buf::lemma_view_injective(lines[i].buf, lines[j].buf);
    if i < j {
        law_buffer_identity(states, lines, i, j - 1);
        Buf::lemma_view_injective(lines[i].buf, lines[j - 1].buf);
    }
}

/// Every line of a run comes from a buffer with a number that the reader
/// had at the start: that of its buffer then, or one of those left to it.
/// Readers that were given parts of one source of numbers therefore never
/// return lines from the same buffer.
pub proof fn law_run_numbers(states: Seq<ReaderState>, lines: Seq<BytesState>, i: int)
    requires
        is_run(states, lines),
        forall|k: int| 0 <= k < states.len() ==> (#[trigger] states[k]).wf(),
        0 <= i < lines.len(),
    ensures
        states[i + 1].ids.end == states[0].ids.end,
        lines[i].buf.family() == states[0].ids.family,
        lines[i].buf@ == states[0].buf.id || states[0].ids.free(lines[i].buf@),
    decreases i,
{
    assert(line_read(states[i], states[i + 1], lines[i]));
    if i > 0 {
        law_run_numbers(states, lines, i - 1);
    }
}

/// The buffers that the lines of a run come from come in runs: a reader
/// never goes back to a buffer that it has left.
pub proof fn law_run_in_runs(states: Seq<ReaderState>, lines: Seq<BytesState>)
    requires
        is_run(states, lines),
    ensures
        in_runs(touched(lines)),
{
    let bufs = touched(lines);
    assert forall|i: int, j: int, k: int|
        0 <= i <= k <= j < bufs.len() && bufs[i] == bufs[j] implies #[trigger] bufs[i]
            == #[trigger] bufs[k] && #[trigger] bufs[j] == bufs[k] by {
        law_buffer_identity(states, lines, i, k);
        law_buffer_identity(states, lines, k, j);
        Buf::lemma_view_injective(lines[i].buf, lines[j].buf);
        Buf::lemma_view_injective(lines[i].buf, lines[k].buf);
        Buf::lemma_view_injective(lines[j].buf, lines[k].buf);
    }
}

/// The list of a session ends with the buffer that was read from last, and
/// no two neighbours in it are the same buffer: only a buffer that is read
/// from again at once is not added again.
pub proof fn law_tracked_list_neighbours(bufs: Seq<Buf>)
    ensures
        tracked_list(bufs).len() <= bufs.len(),
        bufs.len() > 0 ==> tracked_list(bufs).len() > 0 && tracked_list(bufs).last()
            == bufs.last(),
        forall|p: int|
            0 < p < tracked_list(bufs).len() ==> tracked_list(bufs)[p - 1] != #[trigger] tracked_list(
                bufs,
            )[p],
    decreases bufs.len(),
{
    if bufs.len() > 0 {
        law_tracked_list_neighbours(bufs.drop_last());
    }
}

/// Each distinct buffer stands once in `firsts`, and no other.
pub proof fn lemma_firsts(bufs: Seq<Buf>)
    ensures
        firsts(bufs).no_duplicates(),
        firsts(bufs).to_set() == bufs.to_set(),
        firsts(bufs).len() == bufs.to_set().len(),
    decreases bufs.len(),
{
    if bufs.len() > 0 {
        let head = bufs.drop_last();
        let last = bufs.last();
        lemma_firsts(head);
        assert forall|b: Buf| bufs.to_set().contains(b) <==> (head.to_set().contains(b) || b
            == last) by {
            if bufs.contains(b) {
                let i = choose|i: int| 0 <= i < bufs.len() && bufs[i] == b;
                if i < head.len() {
                    assert(head[i] == b);
                }
            }
        }
        if !head.contains(last) {
            let grown = firsts(head).push(last);
            assert forall|b: Buf| grown.to_set().contains(b) <==> (firsts(head).to_set().contains(
                b,
            ) || b == last) by {
                if firsts(head).contains(b) {
                    let i = choose|i: int| 0 <= i < firsts(head).len() && firsts(head)[i] == b;
                    assert(grown[i] == b);
                }
                if b == last {
                    assert(grown[grown.len() - 1] == b);
                }
            }
            assert(!firsts(head).contains(last)) by {
                assert(!firsts(head).to_set().contains(last));
            }
        }
    }
    firsts(bufs).unique_seq_to_set();
}

/// Where no buffer comes back after another one was read from, the list of
/// a session holds each distinct buffer once, in the order in which the
/// buffers were first read from. Its length is the number of distinct buffers.
pub proof fn law_tracked_list_distinct(bufs: Seq<Buf>)
    requires
        in_runs(bufs),
    ensures
        tracked_list(bufs) == firsts(bufs),
        tracked_list(bufs).no_duplicates(),
        tracked_list(bufs).to_set() == bufs.to_set(),
        tracked_list(bufs).len() == bufs.to_set().len(),
    decreases bufs.len(),
{
    if bufs.len() > 0 {
        let head = bufs.drop_last();
        law_tracked_list_distinct(head);
    }
    lemma_firsts(bufs);
}

} // verus!
