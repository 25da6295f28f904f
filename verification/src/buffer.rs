use vstd::prelude::*;
use vstd::slice::slice_subrange;
use vstd::slice::slice_to_vec;
use std::rc::Rc;

verus! {

/// The sequence of `n` zero bytes: what a freshly allocated region holds.
pub open spec fn zeros(n: nat) -> Seq<u8> {
    Seq::new(n, |i: int| 0u8)
}

/// Handle to one persistent buffer.
///
/// A handle carries no bytes and gives no way to change the buffer; it only
/// says *which* buffer is meant. It holds the family of the [`BufIds`] that
/// numbered the buffer and the number that the buffer was made with. A
/// `BufIds` hands out each number once and never again, and no two families
/// are alike, so a handle is equal to the handles of its own buffer and to
/// no other: two buffers with the same bytes are two buffers.
#[derive(Clone, Copy, Debug, PartialEq, Eq, Structural)]
pub struct Buf {
    family: usize,
    id: usize,
}

impl View for Buf {
    type V = nat;

    /// The number that the buffer was made with.
    closed spec fn view(&self) -> nat {
        self.id as nat
    }
}

impl Buf {
    /// The family of the numbers that the buffer's number is one of.
    pub closed spec fn family(&self) -> nat {
        self.family as nat
    }

    /// Handles are equal exactly when family and number agree.
    pub proof fn lemma_view_injective(a: Buf, b: Buf)
        ensures
            (a.family() == b.family() && a@ == b@) == (a == b),
    {
    }
}

/// The address of an allocation that is never freed, as a number.
///
/// Calls `Rc::into_raw`, which gives up `token` without freeing what it
/// points to, so that no later allocation can lie at the same address. The
/// contract claims nothing of the number.
#[verifier::external_body]
fn into_address(token: Rc<u8>) -> usize {
    Rc::into_raw(token) as usize
}

/// Mathematical model of a [`BufIds`]: the numbers from `next` up to, but
/// not including, `end` have yet to be handed out.
pub struct IdsState {
    /// What tells these numbers from the numbers of every other family.
    pub family: nat,
    /// The number that is handed out next.
    pub next: nat,
    /// The first number beyond those that may be handed out.
    pub end: nat,
}

impl IdsState {
    /// The number `id` has yet to be handed out.
    pub open spec fn free(self, id: nat) -> bool {
        self.next <= id < self.end
    }

    /// How many numbers have yet to be handed out.
    pub open spec fn left(self) -> nat {
        if self.next <= self.end {
            (self.end - self.next) as nat
        } else {
            0
        }
    }

    /// The state after the next number was handed out.
    pub open spec fn issue(self) -> IdsState {
        IdsState { next: self.next + 1, ..self }
    }

    /// Where the numbers left are divided between two: the lower part stays,
    /// the upper part, which is no smaller, is given away.
    pub open spec fn middle(self) -> nat {
        self.next + self.left() / 2
    }
}

/// The source of the numbers that tell buffers apart.
///
/// Each number is handed out once. Numbers come in families: [`BufIds::new`]
/// starts a family of its own, told from every other by the address of an
/// allocation that it makes and never frees, and [`BufIds::split`] divides
/// the numbers of one family between two. What is proved of handles is
/// proved within a family; that families differ is the allocator's doing.
pub struct BufIds {
    family: usize,
    next: usize,
    end: usize,
}

impl View for BufIds {
    type V = IdsState;

    closed spec fn view(&self) -> IdsState {
        IdsState { family: self.family as nat, next: self.next as nat, end: self.end as nat }
    }
}

impl BufIds {
    #[verifier::type_invariant]
    spec fn in_order(self) -> bool {
        self.next <= self.end
    }

    /// All numbers of a new family, none of them handed out.
    pub fn new() -> (r: BufIds)
        ensures
            r@.next == 0,
            r@.end == usize::MAX,
    {
        let family = into_address(Rc::new(0u8));
        BufIds { family, next: 0, end: usize::MAX }
    }

    /// How many numbers have yet to be handed out.
    pub fn left(&self) -> (r: usize)
        ensures
            r == self@.left(),
            self@.next <= self@.end,
    {
        proof {
            use_type_invariant(self);
        }
        self.end - self.next
    }

    /// Gives away the upper part of the numbers that are left. No number is
    /// left to both, and none is lost.
    pub fn split(&mut self) -> (r: BufIds)
        ensures
            final(self)@ == (IdsState { end: old(self)@.middle(), ..old(self)@ }),
            r@ == (IdsState { next: old(self)@.middle(), ..old(self)@ }),
            forall|id: nat| old(self)@.free(id) <==> final(self)@.free(id) || r@.free(id),
            forall|id: nat| !(final(self)@.free(id) && r@.free(id)),
    {
        proof {
            use_type_invariant(&*self);
        }
        let middle = self.next + (self.end - self.next) / 2;
        let upper = BufIds { family: self.family, next: middle, end: self.end };
        self.end = middle;
        upper
    }

    /// Hands out the next number, as the handle of the buffer made with it.
    fn issue(&mut self) -> (r: Buf)
        requires
            old(self)@.left() > 0,
        ensures
            r.family() == old(self)@.family,
            r@ == old(self)@.next,
            final(self)@ == old(self)@.issue(),
    {
        proof {
            use_type_invariant(&*self);
        }
        let id = self.next;
        self.next = id + 1;
        Buf { family: self.family, id }
    }
}

/// Mathematical model of a [`BufMut`]: the whole storage and the two cursors.
///
/// ```text
/// +----------+----------------+
/// | consumed |avail|          |
/// +----------+-----+----------+
/// |     filled     | unfilled |
/// +----------------+----------+
/// ```
pub struct BufState {
    /// The family of that number.
    pub family: nat,
    /// The number that the buffer was made with.
    pub id: nat,
    /// Every byte of the buffer, written or not.
    pub storage: Seq<u8>,
    /// Number of bytes already handed out.
    pub consumed: nat,
    /// Number of bytes written so far.
    pub filled: nat,
}

impl BufState {
    /// `consumed <= filled <= capacity`, and the capacity is one that can be allocated.
    pub open spec fn wf(self) -> bool {
        &&& self.consumed <= self.filled <= self.storage.len()
        &&& self.storage.len() <= isize::MAX
    }

    pub open spec fn capacity(self) -> nat {
        self.storage.len()
    }

    /// The region `[0, consumed)`.
    pub open spec fn consumed_bytes(self) -> Seq<u8> {
        self.storage.subrange(0, self.consumed as int)
    }

    /// The region `[consumed, filled)`.
    pub open spec fn available(self) -> Seq<u8> {
        self.storage.subrange(self.consumed as int, self.filled as int)
    }

    /// The region `[filled, capacity)`.
    pub open spec fn unfilled(self) -> Seq<u8> {
        self.storage.subrange(self.filled as int, self.storage.len() as int)
    }

    /// The region `[0, filled)`: everything written so far.
    pub open spec fn written(self) -> Seq<u8> {
        self.storage.subrange(0, self.filled as int)
    }

    /// A buffer of `capacity` zero bytes with both cursors at zero.
    pub open spec fn fresh(ids: IdsState, capacity: nat) -> BufState {
        BufState {
            family: ids.family,
            id: ids.next,
            storage: zeros(capacity),
            consumed: 0,
            filled: 0,
        }
    }

    /// The state after `n` more bytes were handed out.
    pub open spec fn consume(self, n: nat) -> BufState {
        BufState { consumed: self.consumed + n, ..self }
    }

    /// The state after `n` more bytes of the unfilled region were declared written.
    pub open spec fn fill(self, n: nat) -> BufState {
        BufState { filled: self.filled + n, ..self }
    }

    /// The state after the unfilled region was overwritten with `region`.
    pub open spec fn with_unfilled(self, region: Seq<u8>) -> BufState {
        BufState { storage: self.written() + region, ..self }
    }

    /// The state after `data` was copied to the start of the unfilled region
    /// and declared written.
    pub open spec fn append(self, data: Seq<u8>) -> BufState {
        BufState {
            storage: self.written() + data + self.storage.subrange(
                (self.filled + data.len()) as int,
                self.storage.len() as int,
            ),
            filled: self.filled + data.len(),
            ..self
        }
    }

    /// `later` is this buffer at a later time, or a buffer made later from
    /// the same numbers. While the buffer stays the same its capacity stays, the cursors
    /// only advance, and what was written is still there, byte for byte.
    pub open spec fn precedes(self, later: BufState) -> bool {
        &&& self.family == later.family
        &&& self.id <= later.id
        &&& self.id == later.id ==> {
            &&& later.storage.len() == self.storage.len()
            &&& self.consumed <= later.consumed
            &&& self.filled <= later.filled
            &&& later.storage.take(self.filled as int) == self.written()
        }
    }

    /// The same buffer with the same cursors and the same written bytes;
    /// only the unfilled region may differ.
    pub open spec fn agrees(self, other: BufState) -> bool {
        &&& self.family == other.family
        &&& self.id == other.id
        &&& self.storage.len() == other.storage.len()
        &&& self.consumed == other.consumed
        &&& self.filled == other.filled
        &&& self.written() == other.written()
    }

    /// The buffer that takes over from this one: `capacity` bytes that begin
    /// with the bytes still available here, nothing consumed yet. Its number
    /// is the next of `ids`.
    pub open spec fn grow(self, capacity: nat, ids: IdsState) -> BufState {
        BufState {
            family: ids.family,
            id: ids.next,
            storage: self.available() + zeros((capacity - self.available().len()) as nat),
            consumed: 0,
            filled: self.available().len(),
        }
    }
}

/// The single writer over one persistent buffer of fixed capacity.
///
/// Bytes are only ever added behind `filled`; what lies in `[0, filled)` is
/// never written again.
pub struct BufMut {
    data: Vec<u8>,
    consumed: usize,
    filled: usize,
    handle: Buf,
}

impl View for BufMut {
    type V = BufState;

    closed spec fn view(&self) -> BufState {
        BufState {
            family: self.handle.family(),
            id: self.handle@,
            storage: self.data@,
            consumed: self.consumed as nat,
            filled: self.filled as nat,
        }
    }
}

impl BufMut {
    /// The cursors are in order and within the storage.
    pub open spec fn wf(&self) -> bool {
        self@.wf()
    }

    /// Allocates a zero-filled buffer of exactly `capacity` bytes. Its
    /// number is the next of `ids`: one that no buffer was made with before,
    /// and none will be made with again.
    pub fn new(capacity: usize, ids: &mut BufIds) -> (r: BufMut)
        requires
            capacity <= isize::MAX,
            old(ids)@.left() > 0,
        ensures
            r.wf(),
            r@ == BufState::fresh(old(ids)@, capacity as nat),
            final(ids)@ == old(ids)@.issue(),
            old(ids)@.free(r@.id),
            !final(ids)@.free(r@.id),
            forall|id: nat| final(ids)@.free(id) ==> old(ids)@.free(id),
    {
        let data = vec![0u8; capacity];
        assert(data@ =~= zeros(capacity as nat));
        let handle = ids.issue();
        BufMut { data, consumed: 0, filled: 0, handle }
    }

    /// The bytes already handed out.
    pub fn consumed(&self) -> (r: &[u8])
        requires
            self.wf(),
        ensures
            r@ == self@.consumed_bytes(),
    {
        slice_subrange(self.data.as_slice(), 0, self.consumed)
    }

    /// The bytes written but not yet handed out.
    pub fn available(&self) -> (r: &[u8])
        requires
            self.wf(),
        ensures
            r@ == self@.available(),
    {
        slice_subrange(self.data.as_slice(), self.consumed, self.filled)
    }

    /// The region that a byte source may write into. Whatever the caller
    /// leaves there replaces the unfilled region; the written bytes and the
    /// cursors stay as they are.
    pub fn unfilled(&mut self) -> (r: &mut [u8])
        requires
            old(self).wf(),
        ensures
            r@ == old(self)@.unfilled(),
            final(self)@ == old(self)@.with_unfilled(final(r)@),
    {
        let filled = self.filled;
        let (_, tail) = self.data.as_mut_slice().split_at_mut(filled);
        tail
    }

    /// Advances `consumed` by `n` and returns the bytes passed over.
    pub fn consume(&mut self, n: usize) -> (r: &[u8])
        requires
            old(self).wf(),
            old(self)@.consumed + n <= old(self)@.filled,
        ensures
            final(self).wf(),
            final(self)@ == old(self)@.consume(n as nat),
            r@ == old(self)@.storage.subrange(
                old(self)@.consumed as int,
                old(self)@.consumed + n,
            ),
    {
        let start = self.consumed;
        self.consumed = start + n;
        slice_subrange(self.data.as_slice(), start, start + n)
    }

    /// Advances `filled` by `n` and returns the bytes newly declared written.
    pub fn fill(&mut self, n: usize) -> (r: &[u8])
        requires
            old(self).wf(),
            old(self)@.filled + n <= old(self)@.capacity(),
        ensures
            final(self).wf(),
            final(self)@ == old(self)@.fill(n as nat),
            r@ == old(self)@.storage.subrange(old(self)@.filled as int, old(self)@.filled + n),
    {
        let start = self.filled;
        self.filled = start + n;
        slice_subrange(self.data.as_slice(), start, start + n)
    }

    /// Copies `data` to the start of the unfilled region and advances `filled` past it.
    pub fn append(&mut self, data: &[u8])
        requires
            old(self).wf(),
            old(self)@.filled + data@.len() <= old(self)@.capacity(),
        ensures
            final(self).wf(),
            final(self)@ == old(self)@.append(data@),
    {
        let start = self.filled;
        let len = data.len();
        let mut i: usize = 0;
        while i < len
            invariant
                i <= len,
                len == data@.len(),
                start + len <= self.data.len(),
                self.data@.len() == old(self).data@.len(),
                self.consumed == old(self).consumed,
                self.filled == old(self).filled,
                self.handle == old(self).handle,
                start == self.filled,
                forall|j: int| 0 <= j < start ==> self.data@[j] == old(self).data@[j],
                forall|j: int| 0 <= j < i ==> self.data@[start + j] == data@[j],
                forall|j: int| start + i <= j < self.data@.len() ==> self.data@[j] == old(self).data@[j],
            decreases len - i,
        {
            self.data[start + i] = data[i];
            i += 1;
        }
        self.filled = start + len;
        assert(self@.storage =~= old(self)@.append(data@).storage);
    }

    /// A handle to the buffer behind this writer.
    pub fn borrow(&self) -> (r: Buf)
        ensures
            r.family() == self@.family,
            r@ == self@.id,
    {
        self.handle
    }

    /// Allocates the buffer that takes over from this one, `capacity` bytes
    /// long and with the next number of `ids`, and carries the bytes still
    /// available over to its start.
    pub fn grow(&self, capacity: usize, ids: &mut BufIds) -> (r: BufMut)
        requires
            self.wf(),
            self@.available().len() <= capacity <= isize::MAX,
            old(ids)@.left() > 0,
        ensures
            r.wf(),
            r@ == self@.grow(capacity as nat, old(ids)@),
            final(ids)@ == old(ids)@.issue(),
            old(ids)@.free(r@.id),
            !final(ids)@.free(r@.id),
            forall|id: nat| final(ids)@.free(id) ==> old(ids)@.free(id),
    {
        let mut next = BufMut::new(capacity, ids);
        next.append(self.available());
        assert(next@.storage =~= self@.grow(capacity as nat, old(ids)@).storage);
        next
    }
}

/// Mathematical model of a [`Bytes`]: which buffer, where in it, and what is there.
pub struct BytesState {
    /// The buffer that the bytes lie in.
    pub buf: Buf,
    /// Where in that buffer they begin.
    pub offset: nat,
    /// The bytes themselves.
    pub bytes: Seq<u8>,
}

/// A run of bytes of one persistent buffer, with the handle of that buffer.
pub struct Bytes {
    buf: Buf,
    offset: usize,
    data: Vec<u8>,
}

impl View for Bytes {
    type V = BytesState;

    closed spec fn view(&self) -> BytesState {
        BytesState { buf: self.buf, offset: self.offset as nat, bytes: self.data@ }
    }
}

impl Bytes {
    /// Captures the bytes `region`, which begin at `offset` in the buffer `buf`.
    pub(crate) fn capture(buf: Buf, offset: usize, region: &[u8]) -> (r: Bytes)
        ensures
            r@ == (BytesState { buf, offset: offset as nat, bytes: region@ }),
    {
        Bytes { buf, offset, data: slice_to_vec(region) }
    }

    /// The bytes referred to.
    pub fn slice(&self) -> (r: &[u8])
        ensures
            r@ == self@.bytes,
    {
        self.data.as_slice()
    }

    /// The handle of the buffer that the bytes lie in.
    pub fn buf(&self) -> (r: Buf)
        ensures
            r == self@.buf,
    {
        self.buf
    }
}

} // verus!

