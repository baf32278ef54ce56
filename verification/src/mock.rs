//! Two ends of a connection in memory, for trying out readers and writers
//! without a transport.

use crate::error::{Error, ErrorKind, TransportError};
use crate::frame::WriteFrame;
use crate::io::{append, copy_to_front, ByteReader, ByteSource};
use vstd::prelude::*;
use vstd::slice::{slice_subrange, slice_to_vec};

verus! {

/// The state of one end.
pub struct MockView {
    /// What has come in and is not read yet.
    pub incoming: Seq<u8>,
    /// All that was written at this end.
    pub written: Seq<u8>,
    /// How much of it has been carried to the other end.
    pub delivered: nat,
}

impl MockView {
    /// What was written and is not carried over yet.
    pub open spec fn pending(self) -> Seq<u8> {
        self.written.skip(self.delivered as int)
    }
}

/// One end of a connection in memory. What is written at one end comes in
/// at the other once it has been carried over with `deliver`.
#[derive(Debug)]
pub struct MockStream {
    rx: Vec<u8>,
    sent: Vec<u8>,
    tx: Vec<u8>,
}

impl View for MockStream {
    type V = MockView;

    closed spec fn view(&self) -> MockView {
        MockView {
            incoming: self.rx@,
            written: self.sent@ + self.tx@,
            delivered: self.sent@.len(),
        }
    }
}

impl MockStream {
    fn empty() -> (end: MockStream)
        ensures
            end@ == (MockView { incoming: Seq::empty(), written: Seq::empty(), delivered: 0 }),
    {
        MockStream { rx: Vec::new(), sent: Vec::new(), tx: Vec::new() }
    }

    /// The two ends of a new connection, with nothing on the way.
    pub fn new() -> (ends: (MockStream, MockStream))
        ensures
            ends.0@ == (MockView { incoming: Seq::empty(), written: Seq::empty(), delivered: 0 }),
            ends.1@ == ends.0@,
    {
        (Self::empty(), Self::empty())
    }

    /// Writes `buf` at this end and says how many octets were taken: all.
    pub fn write(&mut self, buf: &[u8]) -> (n: usize)
        ensures
            n == buf@.len(),
            final(self)@ == (MockView { written: old(self)@.written + buf@, ..old(self)@ }),
    {
        append(&mut self.tx, buf);
        assert(self@.written == old(self)@.written + buf@);
        buf.len()
    }

    /// Nothing is held back at this end, so there is nothing to do.
    pub fn flush(&mut self)
        ensures
            final(self)@ == old(self)@,
    {
    }

    /// Carries what was written at this end, and not carried before, to `peer`.
    pub fn deliver(&mut self, peer: &mut MockStream)
        ensures
            final(self)@ == (MockView { delivered: old(self)@.written.len(), ..old(self)@ }),
            final(peer)@ == (MockView {
                incoming: old(peer)@.incoming + old(self)@.pending(),
                ..old(peer)@
            }),
    {
        append(&mut peer.rx, self.tx.as_slice());
        append(&mut self.sent, self.tx.as_slice());
        self.tx.clear();
        proof {
            assert(old(self)@.pending() == old(self).tx@);
            assert(self@.written == old(self)@.written);
        }
    }

    /// Takes the first `n` octets of what has come in.
    fn take(&mut self, n: usize) -> (taken: Vec<u8>)
        requires
            n <= old(self)@.incoming.len(),
        ensures
            taken@ == old(self)@.incoming.take(n as int),
            final(self)@ == (MockView {
                incoming: old(self)@.incoming.skip(n as int),
                ..old(self)@
            }),
    {
        let len = self.rx.len();
        let taken = slice_to_vec(slice_subrange(self.rx.as_slice(), 0, n));
        let rest = slice_to_vec(slice_subrange(self.rx.as_slice(), n, len));
        self.rx = rest;
        taken
    }

    /// Moves octets that have come in into `buf`, as many as both hold, and
    /// says how many.
    pub fn read(&mut self, buf: &mut [u8]) -> (n: usize)
        ensures
            n == if old(buf)@.len() <= old(self)@.incoming.len() {
                old(buf)@.len()
            } else {
                old(self)@.incoming.len()
            },
            final(buf)@ == old(self)@.incoming.take(n as int) + old(buf)@.skip(n as int),
            final(self)@ == (MockView {
                incoming: old(self)@.incoming.skip(n as int),
                ..old(self)@
            }),
    {
        let avail = self.rx.len();
        let n = if buf.len() <= avail {
            buf.len()
        } else {
            avail
        };
        let taken = self.take(n);
        copy_to_front(buf, taken.as_slice());
        n
    }
}

/// What is written at an end is taken, always.
impl WriteFrame for MockStream {
    open spec fn written(&self) -> Seq<u8> {
        self@.written
    }

    open spec fn reliable(&self) -> bool {
        true
    }

    fn write_all(&mut self, bytes: &[u8]) -> (r: Result<(), Error>)
        ensures
            final(self)@ == (MockView { written: old(self)@.written + bytes@, ..old(self)@ }),
    {
        let _ = self.write(bytes);
        Ok(())
    }
}

/// An end yields what has come in.
impl ByteReader for MockStream {
    open spec fn unread(&self) -> Seq<u8> {
        self@.incoming
    }

    fn read_exact(&mut self, n: usize) -> (r: Result<Vec<u8>, Error>)
        ensures
            final(self)@.written == old(self)@.written,
            final(self)@.delivered == old(self)@.delivered,
    {
        let len = self.rx.len();
        if n <= len {
            Ok(self.take(n))
        } else {
            let _ = self.take(len);
            assert(self@.incoming == Seq::<u8>::empty());
            Err(Error::new(ErrorKind::Internal, "failed to fill whole buffer"))
        }
    }
}

/// As a source, an end hands over what has come in, and would block when
/// there is nothing.
impl ByteSource for MockStream {
    fn pull(&mut self, max: usize) -> (r: Result<Vec<u8>, TransportError>)
        ensures
            old(self)@.incoming.len() == 0 && max > 0 ==> r is Err && final(self)@ == old(self)@,
            old(self)@.incoming.len() > 0 || max == 0 ==> r is Ok && r->Ok_0@ == old(
                self,
            )@.incoming.take(
                if max <= old(self)@.incoming.len() {
                    max as int
                } else {
                    old(self)@.incoming.len() as int
                },
            ) && final(self)@ == (MockView {
                incoming: old(self)@.incoming.skip(r->Ok_0@.len() as int),
                ..old(self)@
            }),
    {
        let avail = self.rx.len();
        if avail == 0 && max > 0 {
            return Err(TransportError::would_block());
        }
        let n = if max <= avail {
            max
        } else {
            avail
        };
        Ok(self.take(n))
    }
}

} // verus!
