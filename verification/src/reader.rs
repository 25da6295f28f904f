use vstd::prelude::*;
use crate::buffer::{Buf, BufIds, BufMut, BufState, Bytes, BytesState, IdsState};
use crate::line::{ends_in_lf, find_lf, first_lf, first_line, is_first_lf, lf_free, line_len, rest};
use crate::line::{
    lemma_first_lf, lemma_first_lf_at, lemma_first_lf_concat, lemma_first_line_of_prefix,
};
use crate::source::Source;

verus! {

/// Mathematical model of a [`SharedReader`].
pub struct ReaderState {
    /// The bytes that the source has yet to deliver.
    pub stream: Seq<u8>,
    /// Whether the source never fails.
    pub reliable: bool,
    /// The current buffer.
    pub buf: BufState,
    /// The numbers left for the buffers to come.
    pub ids: IdsState,
    /// The capacity of the first buffer, and the least capacity of any later one.
    pub initial_capacity: nat,
}

/// `capacity`, doubled `times` times.
pub open spec fn doubled(capacity: nat, times: nat) -> nat
    decreases times,
{
    if times == 0 {
        capacity
    } else {
        2 * doubled(capacity, (times - 1) as nat)
    }
}

/// A line of `len` bytes that begins at `offset` can be read to its end in a
/// buffer of `capacity` bytes. A line with a line feed may fill the buffer to
/// its last byte. One without is ended by a read that finds nothing, and
/// that read needs room to be made.
pub open spec fn fits(offset: nat, len: nat, lf: bool, capacity: nat) -> bool {
    if lf {
        offset + len <= capacity
    } else {
        offset + len < capacity
    }
}

impl ReaderState {
    /// The bytes taken from the source and not yet handed out.
    pub open spec fn pending(self) -> Seq<u8> {
        self.buf.available()
    }

    /// Every byte that has yet to be handed out: those pending, then those
    /// that the source has yet to deliver.
    pub open spec fn remaining(self) -> Seq<u8> {
        self.pending() + self.stream
    }

    /// The current buffer has no room left.
    pub open spec fn full(self) -> bool {
        self.buf.filled == self.buf.capacity()
    }

    /// The end of the stream has been seen: nothing remains, and the
    /// current buffer has room that a read found nothing to put in.
    pub open spec fn at_end(self) -> bool {
        self.remaining().len() == 0 && !self.full()
    }

    /// The capacity of the buffer that takes over when the current one is
    /// full: twice what is pending, and no less than the initial capacity.
    pub open spec fn grown_capacity(self) -> nat {
        if 2 * self.pending().len() < self.initial_capacity {
            self.initial_capacity
        } else {
            2 * self.pending().len()
        }
    }

    /// The capacity of the buffer that is current after a read has moved to
    /// a new buffer `growths` times. The first new buffer takes over all
    /// that follows the consumed bytes of this one, and each later one all
    /// of the buffer before it.
    pub open spec fn capacity_after(self, growths: nat) -> nat {
        if growths == 0 {
            self.buf.capacity()
        } else {
            let carried = (self.buf.capacity() - self.buf.consumed) as nat;
            let first = if 2 * carried < self.initial_capacity {
                self.initial_capacity
            } else {
                2 * carried
            };
            doubled(first, (growths - 1) as nat)
        }
    }

    /// Where the line to be read begins in that buffer.
    pub open spec fn offset_after(self, growths: nat) -> nat {
        if growths == 0 {
            self.buf.consumed
        } else {
            0
        }
    }

    /// The read of a line of `len` bytes ends in the buffer `buf`: the first
    /// buffer, counted from the current one, in which the line can be read
    /// to its end.
    pub open spec fn places(self, buf: BufState, len: nat, lf: bool) -> bool {
        let growths = (buf.id - self.buf.id) as nat;
        &&& self.buf.id <= buf.id
        &&& buf.capacity() == self.capacity_after(growths)
        &&& fits(self.offset_after(growths), len, lf, buf.capacity())
        &&& growths > 0 ==> !fits(
            self.offset_after((growths - 1) as nat),
            len,
            lf,
            self.capacity_after((growths - 1) as nat),
        )
    }

    /// `cur` is a state of the same read as this one, reached before any
    /// byte was handed out: its buffer is the one that so many new buffers
    /// lead to, and what is pending there did not fit into the buffer before.
    pub open spec fn grown_to(self, cur: ReaderState) -> bool {
        let growths = (cur.buf.id - self.buf.id) as nat;
        &&& self.buf.id <= cur.buf.id
        &&& cur.initial_capacity == self.initial_capacity
        &&& cur.ids.end == self.ids.end
        &&& cur.buf.capacity() == self.capacity_after(growths)
        &&& cur.buf.consumed == self.offset_after(growths)
        &&& growths > 0 ==> self.capacity_after((growths - 1) as nat) - self.offset_after(
            (growths - 1) as nat,
        ) <= cur.pending().len()
    }

    /// The state after a new buffer took over from a full one.
    pub open spec fn grow(self) -> ReaderState {
        ReaderState {
            buf: self.buf.grow(self.grown_capacity(), self.ids),
            ids: self.ids.issue(),
            ..self
        }
    }

    /// The validity of a reader's state: the buffer is valid and no smaller
    /// than the initial capacity, and its number is the one that was handed
    /// out last.
    pub open spec fn wf(self) -> bool {
        &&& self.buf.wf()
        &&& 0 < self.initial_capacity <= self.buf.capacity()
        &&& self.buf.family == self.ids.family
        &&& self.buf.id + 1 == self.ids.next
        &&& self.ids.next <= self.ids.end
    }

    /// The line that comes next can be read with `growths` new buffers:
    /// there are numbers for them, the last of them can be allocated, and
    /// the line fits there.
    pub open spec fn reads_in(self, growths: nat) -> bool {
        &&& growths <= self.ids.left()
        &&& self.capacity_after(growths) <= isize::MAX
        &&& fits(
            self.offset_after(growths),
            line_len(self.remaining()),
            first_lf(self.remaining()) is Some,
            self.capacity_after(growths),
        )
    }

    /// The line that comes next can be read within the limits of the
    /// machine. It cannot where it is longer than half of what can be
    /// allocated, or where the numbers for new buffers run out.
    pub open spec fn readable(self) -> bool {
        exists|growths: nat| self.reads_in(growths)
    }
}

/// What one successful `read_line` does: it takes a reader from `pre` to
/// `post` and returns `line`.
pub open spec fn line_read(pre: ReaderState, post: ReaderState, line: BytesState) -> bool {
    &&& line.bytes == first_line(pre.remaining())
    &&& post.remaining() == rest(pre.remaining())
    &&& post.reliable == pre.reliable
    &&& post.initial_capacity == pre.initial_capacity
    &&& post.ids.end == pre.ids.end
    &&& pre.buf.precedes(post.buf)
    &&& pre.places(post.buf, line.bytes.len(), ends_in_lf(line.bytes))
    &&& line.buf.family() == post.buf.family
    &&& line.buf@ == post.buf.id
    &&& line.offset == pre.offset_after((post.buf.id - pre.buf.id) as nat)
    &&& line.offset + line.bytes.len() == post.buf.consumed
    &&& post.buf.storage.subrange(line.offset as int, post.buf.consumed as int) == line.bytes
    &&& !ends_in_lf(line.bytes) ==> post.at_end()
    &&& first_lf(pre.pending()) is Some ==> {
        &&& post.stream == pre.stream
        &&& post.ids == pre.ids
        &&& post.buf == pre.buf.consume(line.bytes.len())
    }
    &&& pre.at_end() ==> pre.buf.agrees(post.buf)
}

/// What a `read_line` that fails does: it hands out nothing. The bytes that
/// earlier reads of the same call brought in stay pending.
pub open spec fn read_failed(pre: ReaderState, post: ReaderState) -> bool {
    &&& post.remaining() == pre.remaining()
    &&& post.reliable == pre.reliable
    &&& post.initial_capacity == pre.initial_capacity
    &&& pre.buf.precedes(post.buf)
    &&& pre.grown_to(post)
    &&& first_lf(pre.pending()) is None
    &&& !pre.reliable
}

/// A reader of lines that never overwrites what it has handed out.
pub struct SharedReader<R> {
    reader: R,
    buf: BufMut,
    /// The initial capacity for a new buffer.
    initial_capacity: usize,
    ids: BufIds,
}

impl<R: Source> View for SharedReader<R> {
    type V = ReaderState;

    open spec fn view(&self) -> ReaderState {
        ReaderState {
            stream: self.source().stream(),
            reliable: self.source().reliable(),
            buf: self.writer()@,
            ids: self.numbers()@,
            initial_capacity: self.initial_capacity(),
        }
    }
}

impl<R: Source> SharedReader<R> {
    /// The byte source.
    pub closed spec fn source(&self) -> R {
        self.reader
    }

    /// The writer over the current buffer.
    pub closed spec fn writer(&self) -> BufMut {
        self.buf
    }

    /// The source of the numbers of the buffers to come.
    pub closed spec fn numbers(&self) -> BufIds {
        self.ids
    }

    /// The capacity of the first buffer, and the least capacity of any later one.
    pub closed spec fn initial_capacity(&self) -> nat {
        self.initial_capacity as nat
    }

    /// The source is valid and so is the state.
    pub open spec fn wf(&self) -> bool {
        self.source().inv() && self@.wf()
    }

    /// A reader over `reader` whose first buffer holds `initial_capacity`
    /// bytes. The buffers of the reader are made with the numbers of `ids`.
    pub fn new(reader: R, initial_capacity: usize, ids: BufIds) -> (r: SharedReader<R>)
        requires
            reader.inv(),
            0 < initial_capacity <= isize::MAX,
            ids@.left() > 0,
        ensures
            r.wf(),
            r.source() == reader,
            r@.buf == BufState::fresh(ids@, initial_capacity as nat),
            r@.ids == ids@.issue(),
            r@.initial_capacity == initial_capacity,
            r@.remaining() == reader.stream(),
    {
        let mut ids = ids;
        let buf = BufMut::new(initial_capacity, &mut ids);
        SharedReader { reader, buf, initial_capacity, ids }
    }

    /// A handle to the current buffer. Nothing is read.
    pub fn buffer(&self) -> (r: Buf)
        ensures
            r.family() == self@.buf.family,
            r@ == self@.buf.id,
    {
        self.buf.borrow()
    }

    /// Where the current buffer is full, a new one takes over what is pending.
    fn make_room(&mut self)
        requires
            old(self).wf(),
            old(self)@.full() ==> old(self)@.ids.left() > 0 && old(self)@.grown_capacity()
                <= isize::MAX,
        ensures
            final(self).wf(),
            final(self).source() == old(self).source(),
            final(self)@ == if old(self)@.full() {
                old(self)@.grow()
            } else {
                old(self)@
            },
            !final(self)@.full(),
            final(self)@.pending() == old(self)@.pending(),
    {
        let full = self.buf.unfilled().is_empty();
        proof {
            assert(self.buf@.storage =~= old(self)@.buf.storage);
        }
        if full {
            let pending = self.buf.available().len();
            let doubled = pending * 2;
            let capacity = if doubled < self.initial_capacity {
                self.initial_capacity
            } else {
                doubled
            };
            self.buf = self.buf.grow(capacity, &mut self.ids);
        }
    }

    /// Reads once from the source into the room of the current buffer. What
    /// arrives is not yet declared written.
    fn fetch(&mut self) -> (r: Result<usize, R::Error>)
        requires
            old(self).wf(),
            !old(self)@.full(),
        ensures
            final(self).source().inv(),
            final(self)@.reliable == old(self)@.reliable,
            final(self)@.initial_capacity == old(self)@.initial_capacity,
            final(self)@.ids == old(self)@.ids,
            old(self)@.buf.agrees(final(self)@.buf),
            old(self)@.reliable ==> r is Ok,
            match r {
                Ok(n) => {
                    &&& final(self).source().failed() == old(self).source().failed()
                    &&& n == old(self).source().piece(old(self)@.buf.unfilled().len())
                    &&& n <= old(self)@.stream.len()
                    &&& n <= old(self)@.buf.unfilled().len()
                    &&& n == 0 <==> old(self)@.stream.len() == 0
                    &&& final(self)@.stream == old(self)@.stream.skip(n as int)
                    &&& final(self)@.buf.unfilled().take(n as int) == old(self)@.stream.take(
                        n as int,
                    )
                },
                Err(e) => {
                    &&& final(self)@.stream == old(self)@.stream
                    &&& final(self).source().failed() == old(self).source().failed().push(e)
                },
            },
    {
        let ghost before = self.buf@;
        let r = self.reader.read(self.buf.unfilled());
        proof {
            assert(self.buf@.written() =~= before.written());
        }
        r
    }

    /// Hands out the first `len` pending bytes.
    fn take(&mut self, len: usize) -> (r: Bytes)
        requires
            old(self).wf(),
            len <= old(self)@.pending().len(),
        ensures
            final(self).source() == old(self).source(),
            final(self)@ == (ReaderState { buf: old(self)@.buf.consume(len as nat), ..old(self)@ }),
            r@.buf.family() == old(self)@.buf.family,
            r@.buf@ == old(self)@.buf.id,
            r@.offset == old(self)@.buf.consumed,
            r@.bytes == old(self)@.pending().take(len as int),
    {
        let handle = self.buf.borrow();
        let offset = self.buf.consumed().len();
        let line = Bytes::capture(handle, offset, self.buf.consume(len));
        line
    }

    /// Reads from the source until a line feed is pending or the stream
    /// ends, and returns the length of the line that is then pending.
    fn fill_line(&mut self) -> (r: Result<usize, R::Error>)
        requires
            old(self).wf(),
            old(self)@.readable(),
            lf_free(old(self)@.pending()),
        ensures
            final(self).wf(),
            match r {
                Ok(_) => final(self).source().failed() == old(self).source().failed(),
                Err(e) => final(self).source().failed() == old(self).source().failed().push(e),
            },
            final(self)@.remaining() == old(self)@.remaining(),
            final(self)@.reliable == old(self)@.reliable,
            final(self)@.initial_capacity == old(self)@.initial_capacity,
            old(self)@.buf.precedes(final(self)@.buf),
            old(self)@.grown_to(final(self)@),
            old(self)@.at_end() ==> old(self)@.buf.agrees(final(self)@.buf),
            old(self)@.reliable ==> r is Ok,
            r matches Ok(len) ==> {
                &&& len <= final(self)@.pending().len()
                &&& old(self)@.places(
                    final(self)@.buf,
                    len as nat,
                    first_lf(final(self)@.pending()) is Some,
                )
                &&& len == line_len(final(self)@.pending())
                &&& first_lf(final(self)@.pending()) is None ==> final(self)@.stream.len() == 0
                    && !final(self)@.full()
            },
    {
        let mut acc: usize = self.buf.available().len();
        let mut found: usize = 0;
        loop
            invariant_except_break
                lf_free(self@.pending()),
                acc == self@.pending().len(),
                found == 0,
            invariant
                self.wf(),
                old(self).wf(),
                old(self)@.readable(),
                self.source().failed() == old(self).source().failed(),
                self@.remaining() == old(self)@.remaining(),
                self@.reliable == old(self)@.reliable,
                self@.initial_capacity == old(self)@.initial_capacity,
                old(self)@.buf.precedes(self@.buf),
                old(self)@.grown_to(self@),
                old(self)@.at_end() ==> old(self)@.buf.agrees(self@.buf),
            ensures
                found <= self@.pending().len(),
                found > 0 && self@.buf.id > old(self)@.buf.id ==> old(self)@.capacity_after(
                    (self@.buf.id - old(self)@.buf.id - 1) as nat,
                ) - old(self)@.offset_after((self@.buf.id - old(self)@.buf.id - 1) as nat)
                    < found,
                found > 0 ==> is_first_lf(self@.pending(), found - 1),
                found == 0 ==> {
                    &&& acc == self@.pending().len()
                    &&& lf_free(self@.pending())
                    &&& self@.stream.len() == 0
                    &&& !self@.full()
                },
            decreases self@.stream.len(),
        {
            let ghost entry = self@;
            proof {
                if entry.full() {
                    lemma_grown_on(old(self)@, entry);
                }
            }
            self.make_room();
            let ghost roomy = self@;
            let n = match self.fetch() {
                Ok(n) => n,
                Err(e) => {
                    proof {
                        lemma_agrees(roomy, self@);
                        lemma_precedes_trans(old(self)@.buf, roomy.buf, self@.buf);
                    }
                    return Err(e);
                },
            };
            let ghost fetched = self@;
            proof {
                lemma_precedes_trans(old(self)@.buf, roomy.buf, fetched.buf);
            }
            if n == 0 {
                proof {
                    lemma_agrees(roomy, fetched);
                }
                break ;
            }
            let hit = find_lf(self.buf.fill(n));
            proof {
                lemma_filled(roomy, fetched, self@, n as nat);
                if let Some(i) = hit {
                    lemma_first_lf_concat(roomy.pending(), roomy.stream.take(n as int), i as int);
                }
            }
            match hit {
                Some(i) => {
                    found = acc + i + 1;
                    break ;
                },
                None => {
                    acc = acc + n;
                },
            }
        }
        proof {
            if found > 0 {
                lemma_first_lf_at(self@.pending(), found - 1);
            }
        }
        if found > 0 {
            Ok(found)
        } else {
            Ok(acc)
        }
    }

    /// Reads a line: the bytes up to and including the next line feed, or,
    /// where the stream ends before one, all that is left.
    ///
    /// Where a line feed is already pending the source is not touched.
    /// Otherwise the source is read until one arrives or the stream ends;
    /// when the current buffer is full, a new one takes over what is pending.
    /// The first read that fails ends the call with its error.
    pub fn read_line(&mut self) -> (r: Result<Bytes, R::Error>)
        requires
            old(self).wf(),
            old(self)@.readable(),
        ensures
            final(self).wf(),
            match r {
                Ok(line) => {
                    &&& line_read(old(self)@, final(self)@, line@)
                    &&& final(self).source().failed() == old(self).source().failed()
                },
                Err(e) => {
                    &&& read_failed(old(self)@, final(self)@)
                    &&& final(self).source().failed() == old(self).source().failed().push(e)
                },
            },
            first_lf(old(self)@.pending()) is Some || old(self)@.reliable ==> r is Ok,
    {
        let len = match find_lf(self.buf.available()) {
            Some(i) => i + 1,
            None => match self.fill_line() {
                Ok(len) => len,
                Err(e) => {
                    return Err(e);
                },
            },
        };
        let ghost filled = self@;
        let line = self.take(len);
        proof {
            lemma_line_taken(old(self)@, filled, self@, line@);
        }
        Ok(line)
    }
}

/// Each new buffer of a read gives the line at least as much room as the
/// buffer before it.
pub proof fn lemma_room_grows(pre: ReaderState, fewer: nat, more: nat)
    requires
        pre.buf.wf(),
        fewer <= more,
    ensures
        pre.capacity_after(fewer) - pre.offset_after(fewer) <= pre.capacity_after(more)
            - pre.offset_after(more),
    decreases more,
{
    if fewer < more {
        lemma_room_grows(pre, fewer, (more - 1) as nat);
    }
}

/// The buffer that a read ends in is the first in which the line can be
/// read to its end: the line fits none of the buffers before it, and the
/// read stays in the current buffer exactly when the line fits there.
pub proof fn law_places_first_fit(pre: ReaderState, buf: BufState, len: nat, lf: bool)
    requires
        pre.buf.wf(),
        pre.places(buf, len, lf),
    ensures
        forall|growths: nat|
            growths < buf.id - pre.buf.id ==> !fits(
                pre.offset_after(growths),
                len,
                lf,
                #[trigger] pre.capacity_after(growths),
            ),
        buf.id == pre.buf.id <==> fits(pre.buf.consumed, len, lf, pre.buf.capacity()),
{
    let last = (buf.id - pre.buf.id) as nat;
    assert forall|growths: nat| growths < last implies !fits(
        pre.offset_after(growths),
        len,
        lf,
        #[trigger] pre.capacity_after(growths),
    ) by {
        lemma_room_grows(pre, growths, (last - 1) as nat);
    }
    if last > 0 {
        assert(!fits(pre.offset_after(0), len, lf, pre.capacity_after(0)));
    }
}

/// Looks for the first buffer that the next line fits in, from the one
/// after `growths` new buffers on.
proof fn lemma_fit_found(state: ReaderState, growths: nat)
    requires
        state.wf(),
        2 * line_len(state.remaining()) <= isize::MAX,
        growths <= line_len(state.remaining()) + 1,
        state.capacity_after(growths) <= isize::MAX,
        growths > 0 ==> growths <= state.capacity_after(growths),
    ensures
        exists|enough: nat|
            {
                &&& enough <= line_len(state.remaining()) + 1
                &&& state.capacity_after(enough) <= isize::MAX
                &&& #[trigger] fits(
                    state.offset_after(enough),
                    line_len(state.remaining()),
                    first_lf(state.remaining()) is Some,
                    state.capacity_after(enough),
                )
            },
    decreases line_len(state.remaining()) + 1 - growths,
{
    let len = line_len(state.remaining());
    let lf = first_lf(state.remaining()) is Some;
    if !fits(state.offset_after(growths), len, lf, state.capacity_after(growths)) {
        lemma_fit_found(state, growths + 1);
    }
}

/// The line that comes next can be read where it is no longer than half of
/// what can be allocated and there are more numbers left than it has bytes.
pub proof fn law_readable(state: ReaderState)
    requires
        state.wf(),
        2 * line_len(state.remaining()) <= isize::MAX,
        line_len(state.remaining()) < state.ids.left(),
    ensures
        state.readable(),
{
    lemma_fit_found(state, 0);
    let enough = choose|enough: nat|
        {
            &&& enough <= line_len(state.remaining()) + 1
            &&& state.capacity_after(enough) <= isize::MAX
            &&& #[trigger] fits(
                state.offset_after(enough),
                line_len(state.remaining()),
                first_lf(state.remaining()) is Some,
                state.capacity_after(enough),
            )
        };
    assert(state.reads_in(enough));
}

/// Being a later state of a buffer, or a later buffer, carries over two steps.
pub proof fn lemma_precedes_trans(a: BufState, b: BufState, c: BufState)
    requires
        a.wf(),
        b.wf(),
        a.precedes(b),
        b.precedes(c),
    ensures
        a.precedes(c),
{
    if a.id == c.id {
        assert(c.storage.take(a.filled as int) =~= a.written());
    }
}

/// From the second new buffer of a read on, each is at least as large as
/// the one before it.
proof fn lemma_capacity_grows(pre: ReaderState, fewer: nat, more: nat)
    requires
        1 <= fewer <= more,
    ensures
        pre.capacity_after(fewer) <= pre.capacity_after(more),
    decreases more,
{
    if fewer < more {
        lemma_capacity_grows(pre, fewer, (more - 1) as nat);
    }
}

/// A read that finds its buffer full before the line is complete can make
/// room, and stays on its way when it does: there is a number for the new
/// buffer, the buffer can be allocated, it is the next in line, and what it
/// takes over did not fit into the old one.
proof fn lemma_grown_on(pre: ReaderState, cur: ReaderState)
    requires
        pre.wf(),
        cur.wf(),
        pre.readable(),
        pre.grown_to(cur),
        cur.remaining() == pre.remaining(),
        lf_free(cur.pending()),
        cur.full(),
    ensures
        cur.ids.left() > 0,
        cur.grown_capacity() <= isize::MAX,
        pre.grown_to(cur.grow()),
{
    let growths = (cur.buf.id - pre.buf.id) as nat;
    let enough = choose|enough: nat| pre.reads_in(enough);
    if enough <= growths {
        lemma_room_grows(pre, enough, growths);
    }
    lemma_capacity_grows(pre, growths + 1, enough);
}

/// A reader whose buffer only differs in its unfilled region has the same
/// bytes pending, and its buffer is a later state of the same buffer.
proof fn lemma_agrees(pre: ReaderState, post: ReaderState)
    requires
        pre.buf.wf(),
        pre.buf.agrees(post.buf),
    ensures
        post.buf.wf(),
        post.pending() == pre.pending(),
        post.full() == pre.full(),
        pre.buf.precedes(post.buf),
{
    assert forall|i: int| 0 <= i < pre.buf.filled implies post.buf.storage[i]
        == pre.buf.storage[i] by {
        assert(post.buf.written()[i] == pre.buf.written()[i]);
    }
}

/// Declaring written the `n` bytes that a read left at the start of the
/// unfilled region moves them from the stream to the pending bytes.
proof fn lemma_filled(pre: ReaderState, fetched: ReaderState, post: ReaderState, n: nat)
    requires
        pre.buf.wf(),
        pre.buf.agrees(fetched.buf),
        n <= pre.stream.len(),
        n <= pre.buf.unfilled().len(),
        fetched.stream == pre.stream.skip(n as int),
        fetched.buf.unfilled().take(n as int) == pre.stream.take(n as int),
        post.buf == fetched.buf.fill(n),
        post.stream == fetched.stream,
    ensures
        post.buf.wf(),
        fetched.buf.precedes(post.buf),
        post.pending() == pre.pending() + pre.stream.take(n as int),
        post.remaining() == pre.remaining(),
        post.buf.storage.subrange(fetched.buf.filled as int, (fetched.buf.filled + n) as int)
            == pre.stream.take(n as int),
{
    lemma_agrees(pre, fetched);
    let piece = pre.stream.take(n as int);
    assert(post.pending() =~= pre.pending() + piece);
}

/// Handing out the pending line completes a successful `read_line`.
proof fn lemma_line_taken(pre: ReaderState, mid: ReaderState, post: ReaderState, line: BytesState)
    requires
        pre.wf(),
        mid.wf(),
        mid.remaining() == pre.remaining(),
        mid.reliable == pre.reliable,
        mid.initial_capacity == pre.initial_capacity,
        pre.buf.precedes(mid.buf),
        pre.grown_to(mid),
        pre.places(mid.buf, line.bytes.len(), first_lf(mid.pending()) is Some),
        first_lf(pre.pending()) is Some ==> mid == pre,
        pre.at_end() ==> pre.buf.agrees(mid.buf),
        first_lf(mid.pending()) is None ==> mid.stream.len() == 0 && !mid.full(),
        line.bytes.len() == line_len(mid.pending()),
        line.bytes.len() <= mid.pending().len(),
        post == (ReaderState { buf: mid.buf.consume(line.bytes.len()), ..mid }),
        line.buf.family() == mid.buf.family,
        line.buf@ == mid.buf.id,
        line.offset == mid.buf.consumed,
        line.bytes == mid.pending().take(line.bytes.len() as int),
    ensures
        post.wf(),
        line_read(pre, post, line),
{
    let len = line.bytes.len();
    lemma_first_lf(mid.pending());
    if first_lf(mid.pending()) is Some {
        lemma_first_line_of_prefix(mid.pending(), mid.stream);
    }
    assert(post.pending() =~= mid.pending().skip(len as int));
    assert(post.buf.storage.subrange(line.offset as int, post.buf.consumed as int)
        =~= line.bytes);
}

} // verus!
