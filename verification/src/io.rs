//! Where octets come from and go to.
//!
//! A `ByteReader` is a reader in memory: what it will yield is known, and
//! the frame decoders are stated over it. A `ByteSource` and a `ByteSink`
//! are the two sides of a transport, of which nothing is known before it
//! answers.

use crate::error::{Error, ErrorKind, TransportError};
use crate::frame::WriteFrame;
use vstd::prelude::*;
use vstd::slice::{slice_subrange, slice_to_vec};

verus! {

/// A reader over octets that are already in memory.
pub trait ByteReader {
    /// The octets that are still to be read, in order.
    spec fn unread(&self) -> Seq<u8>;

    /// Takes the next `n` octets. Where fewer are left, takes them all and
    /// fails with `Internal`.
    fn read_exact(&mut self, n: usize) -> (r: Result<Vec<u8>, Error>)
        ensures
            n <= old(self).unread().len() ==> r is Ok && r->Ok_0@ == old(self).unread().take(
                n as int,
            ) && final(self).unread() == old(self).unread().skip(n as int),
            n > old(self).unread().len() ==> r is Err && r->Err_0@.kind == ErrorKind::Internal
                && final(self).unread() == Seq::<u8>::empty(),
    ;
}

/// The inbound side of a transport in non-blocking mode.
///
/// `pull` hands over at most `max` octets that are there now, none at the
/// end of the stream, and reports `WouldBlock` when it has to wait. Nothing
/// of this is taken on trust: what comes back is checked by the buffer.
pub trait ByteSource {
    fn pull(&mut self, max: usize) -> Result<Vec<u8>, TransportError>;
}

/// The outbound side of a transport: it takes a write whole, or fails.
/// Nothing is known of a sink before it answers.
pub trait ByteSink {
    fn write_all(&mut self, bytes: &[u8]) -> Result<(), TransportError>;
}

/// Appends `bytes` to `out`.
pub fn append(out: &mut Vec<u8>, bytes: &[u8])
    ensures
        final(out)@ == old(out)@ + bytes@,
{
    let mut i: usize = 0;
    while i < bytes.len()
        invariant
            i <= bytes@.len(),
            out@ == old(out)@ + bytes@.take(i as int),
        decreases bytes@.len() - i,
    {
        out.push(bytes[i]);
        i = i + 1;
    }
    assert(bytes@.take(bytes@.len() as int) == bytes@);
}

/// Copies `src` over the front of `dst`, which has to be as long at least.
pub fn copy_to_front(dst: &mut [u8], src: &[u8])
    requires
        src@.len() <= old(dst)@.len(),
    ensures
        final(dst)@ == src@ + old(dst)@.skip(src@.len() as int),
{
    let len = src.len();
    let mut i: usize = 0;
    while i < len
        invariant
            i <= len,
            len == src@.len(),
            len <= dst@.len(),
            dst@.len() == old(dst)@.len(),
            dst@.take(i as int) == src@.take(i as int),
            dst@.skip(i as int) == old(dst)@.skip(i as int),
        decreases len - i,
    {
        let ghost before = dst@;
        dst[i] = src[i];
        proof {
            assert(dst@ == before.update(i as int, src@[i as int]));
            assert(dst@.take(i + 1) == before.take(i as int).push(src@[i as int]));
            assert(src@.take(i + 1) == src@.take(i as int).push(src@[i as int]));
            assert(dst@.skip(i + 1) == before.skip(i as int).skip(1));
            assert(old(dst)@.skip(i + 1) == old(dst)@.skip(i as int).skip(1));
        }
        i = i + 1;
    }
    assert(dst@ == dst@.take(len as int) + dst@.skip(len as int));
    assert(src@.take(len as int) == src@);
}

/// A writer over a byte sink that keeps account of what the sink has taken.
pub struct SinkWriter<W> {
    inner: W,
    taken: Ghost<Seq<u8>>,
}

impl<W> SinkWriter<W> {
    /// The octets of all writes that the sink has taken, in order.
    pub closed spec fn taken(&self) -> Seq<u8> {
        self.taken@
    }

    /// The sink that the writer hands its writes to.
    pub closed spec fn sink(&self) -> W {
        self.inner
    }
}

impl<W: ByteSink> SinkWriter<W> {
    /// A writer over `inner`, which has taken nothing yet.
    pub fn new(inner: W) -> (writer: SinkWriter<W>)
        ensures
            writer.taken() == Seq::<u8>::empty(),
            writer.sink() == inner,
    {
        SinkWriter { inner: inner, taken: Ghost(Seq::empty()) }
    }

    /// The sink, to reach the transport behind it. What is done to it
    /// there is done to the writer's sink; the account of what was taken
    /// stays as it is.
    pub fn get_mut(&mut self) -> (inner: &mut W)
        ensures
            *inner == old(self).sink(),
            final(self).sink() == *final(inner),
            final(self).taken() == old(self).taken(),
    {
        &mut self.inner
    }

    /// Gives the sink back.
    pub fn into_inner(self) -> (inner: W)
        ensures
            inner == self.sink(),
    {
        self.inner
    }
}

/// Writes go to the sink whole. A failure of the sink is an internal error.
impl<W: ByteSink> WriteFrame for SinkWriter<W> {
    open spec fn written(&self) -> Seq<u8> {
        self.taken()
    }

    open spec fn reliable(&self) -> bool {
        false
    }

    fn write_all(&mut self, bytes: &[u8]) -> (r: Result<(), Error>) {
        match self.inner.write_all(bytes) {
            Ok(()) => {
                proof {
                    self.taken@ = self.taken@ + bytes@;
                }
                Ok(())
            },
            Err(e) => Err(Error::transport(e)),
        }
    }
}

/// A cursor over a borrowed slice.
#[derive(Debug)]
pub struct SliceReader<'a> {
    buf: &'a [u8],
    pos: usize,
}

impl<'a> SliceReader<'a> {
    #[verifier::type_invariant]
    spec fn in_bounds(self) -> bool {
        self.pos <= self.buf@.len()
    }

    /// All of the slice, read and unread.
    pub closed spec fn source(&self) -> Seq<u8> {
        self.buf@
    }

    /// How many octets have been read.
    pub closed spec fn spec_position(&self) -> nat {
        self.pos as nat
    }

    /// A reader at the start of `buf`.
    pub fn new(buf: &'a [u8]) -> (r: Self)
        ensures
            r.source() == buf@,
            r.spec_position() == 0,
            r.unread() == buf@,
    {
        SliceReader { buf, pos: 0 }
    }

    pub fn position(&self) -> (p: usize)
        ensures
            p == self.spec_position(),
            p <= self.source().len(),
            self.unread() == self.source().skip(p as int),
    {
        proof {
            use_type_invariant(self);
        }
        self.pos
    }

    /// How many octets are left.
    pub fn remaining(&self) -> (n: usize)
        ensures
            n == self.unread().len(),
    {
        proof {
            use_type_invariant(self);
        }
        self.buf.len() - self.pos
    }
}

impl<'a> ByteReader for SliceReader<'a> {
    closed spec fn unread(&self) -> Seq<u8> {
        self.buf@.skip(self.pos as int)
    }

    fn read_exact(&mut self, n: usize) -> (r: Result<Vec<u8>, Error>)
        ensures
            final(self).source() == old(self).source(),
            n <= old(self).unread().len() ==> final(self).spec_position() == old(
                self,
            ).spec_position() + n,
    {
        proof {
            use_type_invariant(&*self);
        }
        let len = self.buf.len();
        if n <= len - self.pos {
            let taken = slice_to_vec(slice_subrange(self.buf, self.pos, self.pos + n));
            self.pos = self.pos + n;
            Ok(taken)
        } else {
            self.pos = len;
            Err(Error::new(ErrorKind::Internal, "failed to fill whole buffer"))
        }
    }
}

/// As a source, a slice hands over what it has left and never fails.
impl<'a> ByteSource for SliceReader<'a> {
    fn pull(&mut self, max: usize) -> (r: Result<Vec<u8>, TransportError>)
        ensures
            r is Ok,
            r->Ok_0@ == old(self).unread().take(
                if max <= old(self).unread().len() {
                    max as int
                } else {
                    old(self).unread().len() as int
                },
            ),
            final(self).unread() == old(self).unread().skip(r->Ok_0@.len() as int),
            final(self).source() == old(self).source(),
    {
        proof {
            use_type_invariant(&*self);
        }
        let left = self.buf.len() - self.pos;
        let n = if max <= left { max } else { left };
        let taken = slice_to_vec(slice_subrange(self.buf, self.pos, self.pos + n));
        self.pos = self.pos + n;
        Ok(taken)
    }
}

} // verus!
