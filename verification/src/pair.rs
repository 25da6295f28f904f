use vstd::prelude::*;
use crate::buffer::{Buf, Bytes};
use crate::reader::{line_read, read_failed, SharedReader};
use crate::line::first_lf;
use crate::source::Source;

verus! {

/// The list of buffers after a line from `buf` was read: `buf` joins the
/// list unless it is the entry that was added last.
pub open spec fn track(bufs: Seq<Buf>, buf: Buf) -> Seq<Buf> {
    if bufs.len() > 0 && bufs.last() == buf {
        bufs
    } else {
        bufs.push(buf)
    }
}

/// What the construction function returned, seen through the outcome of
/// [`BufPair::new`]: the value of the pair, or the error as it was.
pub open spec fn outcome<T, E>(r: Result<BufPair<T>, E>) -> Result<T, E> {
    match r {
        Ok(pair) => Ok(pair.value()),
        Err(e) => Err(e),
    }
}

/// A value made from lines of a reader, together with the buffers that
/// those lines came from.
pub struct BufPair<T> {
    dependent: T,
    owner: Vec<Buf>,
}

impl<T> BufPair<T> {
    /// The value.
    pub closed spec fn value(&self) -> T {
        self.dependent
    }

    /// The buffers that the value depends on, each where it was first read from.
    pub closed spec fn buffers(&self) -> Seq<Buf> {
        self.owner@
    }

    /// Lends `reader` to a session, runs `make` on the session and hands the
    /// reader back. Where `make` succeeds its value is paired with the
    /// buffers that the session has tracked; where it fails its error is
    /// returned as it is, and the list is dropped.
    pub fn new<R: Source, F, E>(reader: SharedReader<R>, make: F) -> (r: (
        SharedReader<R>,
        Result<BufPair<T>, E>,
    )) where F: FnOnce(&mut BufBuilder<R>) -> Result<T, E>
        requires
            forall|b: &mut BufBuilder<R>|
                b.reader() == reader && b.bufs().len() == 0 ==> call_requires(make, (b,)),
        ensures
            exists|b: &mut BufBuilder<R>|
                #![trigger call_ensures(make, (b,), outcome(r.1))]
                {
                    &&& b.reader() == reader
                    &&& b.bufs().len() == 0
                    &&& call_ensures(make, (b,), outcome(r.1))
                    &&& final(b).reader() == r.0
                    &&& r.1 matches Ok(pair) ==> pair.buffers() == final(b).bufs()
                },
    {
        let mut session = BufBuilder::new(reader);
        let b = &mut session;
        let made = make(b);
        let ghost lent = choose|lent: &mut BufBuilder<R>|
            {
                &&& lent.reader() == reader
                &&& lent.bufs().len() == 0
                &&& call_ensures(make, (lent,), made)
                &&& *final(lent) == session
            };
        let BufBuilder { reader, bufs } = session;
        let r = match made {
            Ok(dependent) => (reader, Ok(BufPair { dependent, owner: bufs })),
            Err(e) => (reader, Err(e)),
        };
        assert(call_ensures(make, (lent,), outcome(r.1)));
        r
    }

    /// The value.
    pub fn dependent(&self) -> (r: &T)
        ensures
            *r == self.value(),
    {
        &self.dependent
    }

    /// The buffers that the value depends on, in the order in which the
    /// session first read from them.
    pub fn owner(&self) -> (r: &[Buf])
        ensures
            r@ == self.buffers(),
    {
        self.owner.as_slice()
    }
}

/// A session over a reader: it reads lines as the reader does and keeps the
/// list of the buffers that they came from.
pub struct BufBuilder<R> {
    reader: SharedReader<R>,
    bufs: Vec<Buf>,
}

impl<R: Source> BufBuilder<R> {
    /// The reader that the session reads from.
    pub closed spec fn reader(&self) -> SharedReader<R> {
        self.reader
    }

    /// The buffers tracked so far.
    pub closed spec fn bufs(&self) -> Seq<Buf> {
        self.bufs@
    }

    /// The reader is valid.
    pub open spec fn wf(&self) -> bool {
        self.reader().wf()
    }

    fn new(reader: SharedReader<R>) -> (r: BufBuilder<R>)
        ensures
            r.reader() == reader,
            r.bufs() == Seq::<Buf>::empty(),
    {
        BufBuilder { reader, bufs: Vec::new() }
    }

    /// Reads a line from the reader and tracks the buffer that it came from.
    /// The buffer is compared with the last entry of the list only.
    pub fn read_line(&mut self) -> (r: Result<Bytes, R::Error>)
        requires
            old(self).wf(),
            old(self).reader()@.readable(),
        ensures
            final(self).wf(),
            match r {
                Ok(line) => {
                    &&& line_read(old(self).reader()@, final(self).reader()@, line@)
                    &&& final(self).reader().source().failed() == old(
                        self,
                    ).reader().source().failed()
                    &&& final(self).bufs() == track(old(self).bufs(), line@.buf)
                },
                Err(e) => {
                    &&& read_failed(old(self).reader()@, final(self).reader()@)
                    &&& final(self).reader().source().failed() == old(
                        self,
                    ).reader().source().failed().push(e)
                    &&& final(self).bufs() == old(self).bufs()
                },
            },
            first_lf(old(self).reader()@.pending()) is Some || old(self).reader()@.reliable
                ==> r is Ok,
    {
        let line = match self.reader.read_line() {
            Ok(line) => line,
            Err(e) => {
                return Err(e);
            },
        };
        let buf = line.buf();
        let n = self.bufs.len();
        if n == 0 || self.bufs[n - 1] != buf {
            self.bufs.push(buf);
        }
        Ok(line)
    }
}

} // verus!
