use vstd::prelude::*;
use core::convert::Infallible;

verus! {

/// A source of bytes, read a piece at a time.
///
/// The model of a source is the sequence of bytes that it has yet to
/// deliver, the size of the piece that its next read takes off the front of
/// that sequence, and the errors of the reads that have failed. A read that
/// succeeds takes nothing only where nothing is left, or where there is no
/// room to put anything. A read that fails takes nothing.
pub trait Source {
    /// What a failing read returns.
    type Error;

    /// The bytes that the source has yet to deliver.
    open spec fn stream(&self) -> Seq<u8> {
        Seq::empty()
    }

    /// The source follows its model. A source that states no model of its
    /// own follows none, and nothing is proved of a reader over it.
    open spec fn inv(&self) -> bool {
        false
    }

    /// No read from this source fails.
    open spec fn reliable(&self) -> bool {
        false
    }

    /// How many bytes the next read delivers if it is given `room` bytes of
    /// room and does not fail.
    open spec fn piece(&self, room: nat) -> nat {
        0
    }

    /// The errors of the reads that have failed so far, oldest first.
    open spec fn failed(&self) -> Seq<Self::Error> {
        Seq::empty()
    }

    /// Reads some bytes to the start of `dest` and returns how many.
    fn read(&mut self, dest: &mut [u8]) -> (r: Result<usize, Self::Error>)
        requires
            old(self).inv(),
        ensures
            final(self).inv(),
            final(self).reliable() == old(self).reliable(),
            final(dest)@.len() == old(dest)@.len(),
            old(self).reliable() ==> r is Ok,
            match r {
                Ok(n) => {
                    &&& n == old(self).piece(old(dest)@.len())
                    &&& n <= old(dest)@.len()
                    &&& n <= old(self).stream().len()
                    &&& final(dest)@.take(n as int) == old(self).stream().take(n as int)
                    &&& final(self).stream() == old(self).stream().skip(n as int)
                    &&& n == 0 <==> old(dest)@.len() == 0 || old(self).stream().len() == 0
                    &&& final(self).failed() == old(self).failed()
                },
                Err(e) => {
                    &&& final(self).stream() == old(self).stream()
                    &&& final(self).failed() == old(self).failed().push(e)
                },
            },
    ;
}

/// A source that delivers the bytes of a slice, as many at a time as there is room for.
pub struct SliceSource<'a> {
    data: &'a [u8],
    pos: usize,
}

impl<'a> SliceSource<'a> {
    /// A source that will deliver all of `data`.
    pub fn new(data: &'a [u8]) -> (r: SliceSource<'a>)
        ensures
            r.inv(),
            r.reliable(),
            r.stream() == data@,
    {
        SliceSource { data, pos: 0 }
    }
}

impl<'a> Source for SliceSource<'a> {
    type Error = Infallible;

    closed spec fn stream(&self) -> Seq<u8> {
        self.data@.skip(self.pos as int)
    }

    closed spec fn inv(&self) -> bool {
        self.pos <= self.data@.len()
    }

    open spec fn reliable(&self) -> bool {
        true
    }

    /// All that there is room for, or all that is left.
    open spec fn piece(&self, room: nat) -> nat {
        if room <= self.stream().len() {
            room
        } else {
            self.stream().len()
        }
    }

    open spec fn failed(&self) -> Seq<Infallible> {
        Seq::empty()
    }

    fn read(&mut self, dest: &mut [u8]) -> (r: Result<usize, Infallible>)
        ensures
            r is Ok,
            r matches Ok(n) ==> final(dest)@.skip(n as int) == old(dest)@.skip(n as int),
    {
        let left = self.data.len() - self.pos;
        let n = if dest.len() < left {
            dest.len()
        } else {
            left
        };
        let start = self.pos;
        let mut i: usize = 0;
        while i < n
            invariant
                i <= n,
                n <= dest@.len(),
                start + n <= self.data.len(),
                dest@.len() == old(dest)@.len(),
                start == self.pos,
                forall|j: int| 0 <= j < i ==> dest@[j] == self.data@[start + j],
                forall|j: int| i <= j < dest@.len() ==> dest@[j] == old(dest)@[j],
            decreases n - i,
        {
            dest[i] = self.data[start + i];
            i += 1;
        }
        self.pos = start + n;
        Ok(n)
    }
}

/// A source that hands on the bytes of another, at most `limit` per read.
pub struct LimitReader<R> {
    reader: R,
    limit: usize,
}

impl<R: Source> LimitReader<R> {
    /// The source behind this one.
    pub closed spec fn inner(&self) -> R {
        self.reader
    }

    /// The most that one read delivers.
    pub closed spec fn limit(&self) -> nat {
        self.limit as nat
    }

    /// The room that the source behind is given where a read has `room`
    /// bytes of room: the first `limit` bytes of it, or all of it.
    pub open spec fn room_given(&self, room: nat) -> nat {
        if room < self.limit() {
            room
        } else {
            self.limit()
        }
    }

    /// Wraps `reader` so that no read delivers more than `limit` bytes.
    pub fn new(reader: R, limit: usize) -> (r: LimitReader<R>)
        ensures
            r.inner() == reader,
            r.limit() == limit,
    {
        LimitReader { reader, limit }
    }
}

impl<R: Source> Source for LimitReader<R> {
    type Error = R::Error;

    /// With a limit of zero nothing is ever delivered.
    open spec fn stream(&self) -> Seq<u8> {
        if self.limit() == 0 {
            Seq::empty()
        } else {
            self.inner().stream()
        }
    }

    open spec fn inv(&self) -> bool {
        self.inner().inv()
    }

    open spec fn reliable(&self) -> bool {
        self.inner().reliable()
    }

    /// What the source behind delivers into the room that the limit leaves.
    open spec fn piece(&self, room: nat) -> nat {
        self.inner().piece(self.room_given(room))
    }

    open spec fn failed(&self) -> Seq<R::Error> {
        self.inner().failed()
    }

    fn read(&mut self, dest: &mut [u8]) -> (r: Result<usize, R::Error>)
        ensures
            final(self).limit() == old(self).limit(),
            r matches Ok(n) ==> n <= old(self).limit(),
            final(dest)@.skip(old(self).room_given(old(dest)@.len()) as int) == old(dest)@.skip(
                old(self).room_given(old(dest)@.len()) as int,
            ),
    {
        let len = if dest.len() < self.limit {
            dest.len()
        } else {
            self.limit
        };
        let (head, _) = dest.split_at_mut(len);
        self.reader.read(head)
    }
}

} // verus!
