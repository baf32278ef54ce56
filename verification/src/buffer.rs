//! Buffer and reader for non-blocking input: a growable, sliding window
//! over the octets that a byte source has handed over so far.

use crate::endian::{lemma_limits, lemma_uint_be_bound, read_uint};
use crate::error::{Error, ErrorKind, TransportError, TransportErrorKind};
use crate::frame::{
    holds_frame, lemma_frame_is_held, lemma_frame_round_trip, lemma_prefix_holds_no_frame,
    spec_read_frame, Decoded, FrameIter, FrameKind, FrameKindView, ReadFrame, HEADER_SIZE,
};
use crate::io::{copy_to_front, ByteReader, ByteSource, SliceReader};
use vstd::prelude::*;
use vstd::slice::{slice_subrange, slice_to_vec};

verus! {

/// The capacity of a new buffer.
pub const INITIAL_BUF_SIZE: usize = 64;

/// The most that a buffer grows by at a time.
pub const DEFAULT_BUF_SIZE: usize = 8 * 1024;

/// The state of a buffer: the readable window, which lies between `pos`
/// and `cap` in a backing store of `capacity` octets.
pub struct BufferView {
    pub window: Seq<u8>,
    pub pos: nat,
    pub cap: nat,
    pub capacity: nat,
}

impl BufferView {
    /// What holds of every buffer: the window lies within the store, and an
    /// empty window lies at its start.
    pub open spec fn consistent(self) -> bool {
        &&& self.pos <= self.cap <= self.capacity
        &&& self.window.len() == self.cap - self.pos
        &&& self.pos == self.cap ==> self.cap == 0
        &&& 1 <= self.capacity <= usize::MAX
    }

    /// How much the store grows when it is full: as much as the window
    /// holds, but no more than `DEFAULT_BUF_SIZE`.
    pub open spec fn growth(self) -> nat {
        if self.window.len() < DEFAULT_BUF_SIZE {
            self.window.len()
        } else {
            DEFAULT_BUF_SIZE as nat
        }
    }

    /// The buffer with room behind the window, as far as there can be. A
    /// full store is replaced by a larger one with the window at its start;
    /// a store that cannot grow stays as it is.
    pub open spec fn reserve(self) -> BufferView {
        if self.cap < self.capacity || self.window.len() + self.growth() > usize::MAX {
            self
        } else {
            BufferView {
                window: self.window,
                pos: 0,
                cap: self.window.len(),
                capacity: self.window.len() + self.growth(),
            }
        }
    }

    /// The free octets behind the window.
    pub open spec fn room(self) -> nat {
        (self.capacity - self.cap) as nat
    }

    /// The buffer with `bytes` behind the window.
    pub open spec fn extend(self, bytes: Seq<u8>) -> BufferView {
        BufferView { window: self.window + bytes, cap: self.cap + bytes.len(), ..self }
    }

    /// The buffer without the first `amt` octets of the window, or without
    /// all of them where it has no more. An empty window goes back to the
    /// start of the store.
    pub open spec fn consume(self, amt: nat) -> BufferView {
        if amt >= self.window.len() {
            BufferView { window: Seq::empty(), pos: 0, cap: 0, capacity: self.capacity }
        } else {
            BufferView { window: self.window.skip(amt as int), pos: self.pos + amt, ..self }
        }
    }
}

/// Whether `longer` starts with `shorter`.
pub open spec fn starts_with(longer: Seq<u8>, shorter: Seq<u8>) -> bool {
    shorter.len() <= longer.len() && longer.take(shorter.len() as int) == shorter
}

/// What one read of a source means for the buffer, with `room` octets
/// free: the octets to take in and whether the source may hold more, or
/// the failure. A source that would block has nothing to take in; one that
/// fills the room exactly may hold more; one that hands over more than was
/// asked for has failed.
pub open spec fn spec_absorb(room: nat, outcome: Result<Vec<u8>, TransportError>) -> Result<
    (Seq<u8>, bool),
    ErrorKind,
> {
    match outcome {
        Ok(bytes) => if bytes@.len() <= room {
            Ok((bytes@, bytes@.len() == room && room > 0))
        } else {
            Err(ErrorKind::Internal)
        },
        Err(e) => if e@.kind == TransportErrorKind::WouldBlock {
            Ok((Seq::empty(), false))
        } else {
            Err(ErrorKind::Internal)
        },
    }
}

/// The buffer after a run of reads that each filled the room exactly, so
/// that another read followed each of them; nothing, if `answers` is no
/// such run from `start`.
pub open spec fn spec_refilled(
    start: BufferView,
    answers: Seq<Result<Vec<u8>, TransportError>>,
) -> Option<BufferView>
    decreases answers.len(),
{
    if answers.len() == 0 {
        Some(start)
    } else {
        match spec_refilled(start, answers.drop_last()) {
            None => None,
            Some(before) => {
                let reserved = before.reserve();
                match spec_absorb(reserved.room(), answers.last()) {
                    Ok((bytes, again)) => if again {
                        Some(reserved.extend(bytes))
                    } else {
                        None
                    },
                    Err(_) => None,
                }
            },
        }
    }
}

/// Whether a fill that starts at `start` ends at `end`, and fails or not,
/// when the source answers with `answers` and then with `last`: after
/// every answer but the last the source was read again, and the last one
/// ended the fill, for want of more or by a failure. Where the store
/// cannot grow, the fill fails before the source is asked once more.
pub open spec fn spec_filled(
    start: BufferView,
    answers: Seq<Result<Vec<u8>, TransportError>>,
    last: Option<Result<Vec<u8>, TransportError>>,
    end: BufferView,
    failed: bool,
) -> bool {
    spec_refilled(start, answers) matches Some(before) && {
        let reserved = before.reserve();
        match last {
            None => reserved.room() == 0 && end == reserved && failed,
            Some(answer) => reserved.room() > 0 && match spec_absorb(reserved.room(), answer) {
                Ok((bytes, again)) => !again && end == reserved.extend(bytes) && !failed,
                Err(_) => end == reserved && failed,
            },
        }
    }
}

/// The backing store with its two cursors.
#[derive(Debug)]
struct Store {
    buf: Vec<u8>,
    pos: usize,
    cap: usize,
}

impl View for Store {
    type V = BufferView;

    closed spec fn view(&self) -> BufferView {
        BufferView {
            window: self.buf@.subrange(self.pos as int, self.cap as int),
            pos: self.pos as nat,
            cap: self.cap as nat,
            capacity: self.buf@.len(),
        }
    }
}

impl Store {
    #[verifier::type_invariant]
    spec fn well_formed(self) -> bool {
        &&& self.pos <= self.cap <= self.buf@.len()
        &&& self.pos == self.cap ==> self.cap == 0
        &&& 1 <= self.buf@.len() <= usize::MAX
    }

    fn new() -> (store: Store)
        ensures
            store@ == (BufferView {
                window: Seq::empty(),
                pos: 0,
                cap: 0,
                capacity: INITIAL_BUF_SIZE as nat,
            }),
    {
        let buf = vec![0u8; INITIAL_BUF_SIZE];
        let store = Store { buf: buf, pos: 0, cap: 0 };
        assert(store@.window == Seq::<u8>::empty());
        store
    }

    /// The number of octets that can be read.
    fn len(&self) -> (n: usize)
        ensures
            n == self@.window.len(),
            self@.consistent(),
    {
        proof {
            use_type_invariant(self);
        }
        self.cap - self.pos
    }

    /// The octets of the window from `start` up to `end`.
    fn range(&self, start: usize, end: usize) -> (octets: &[u8])
        requires
            start <= end <= self@.window.len(),
        ensures
            octets@ == self@.window.subrange(start as int, end as int),
    {
        proof {
            use_type_invariant(self);
        }
        let octets = slice_subrange(self.buf.as_slice(), self.pos + start, self.pos + end);
        assert(octets@ == self@.window.subrange(start as int, end as int));
        octets
    }

    /// Drops the first `amt` octets of the window, or all of them where it
    /// has no more. Once the window is empty, it is back at the start of
    /// the store.
    fn consume(&mut self, amt: usize)
        ensures
            final(self)@ == old(self)@.consume(amt as nat),
            amt >= old(self)@.window.len() ==> final(self)@.pos == 0 && final(self)@.cap == 0,
            final(self)@.consistent(),
    {
        proof {
            use_type_invariant(&*self);
        }
        if amt >= self.cap - self.pos {
            // if we consumed everything until the end, reset buffer to beginning
            self.pos = 0;
            self.cap = 0;
            assert(self@.window == Seq::<u8>::empty());
        } else {
            self.pos = self.pos + amt;
            assert(self@.window == old(self)@.window.skip(amt as int));
        }
        proof {
            use_type_invariant(&*self);
        }
    }

    /// Moves octets from the front of the window into `dst`, as many as
    /// both hold, and says how many.
    fn read(&mut self, dst: &mut [u8]) -> (n: usize)
        ensures
            n == if old(dst)@.len() <= old(self)@.window.len() {
                old(dst)@.len()
            } else {
                old(self)@.window.len()
            },
            final(dst)@ == old(self)@.window.take(n as int) + old(dst)@.skip(n as int),
            final(self)@ == old(self)@.consume(n as nat),
            final(self)@.consistent(),
    {
        proof {
            use_type_invariant(&*self);
        }
        let avail = self.cap - self.pos;
        let len = if dst.len() <= avail {
            dst.len()
        } else {
            avail
        };
        copy_to_front(dst, self.range(0, len));
        assert(self@.window.subrange(0, len as int) == self@.window.take(len as int));
        self.consume(len);
        len
    }

    /// Makes room behind the window, as far as there can be, and says how
    /// much there is. A full store gives way to a larger one, with the
    /// window moved to its start.
    fn reserve(&mut self) -> (room: usize)
        ensures
            final(self)@ == old(self)@.reserve(),
            room == final(self)@.room(),
            room == 0 <==> old(self)@.cap == old(self)@.capacity && old(self)@.window.len() + old(
                self,
            )@.growth() > usize::MAX,
            final(self)@.consistent(),
    {
        proof {
            use_type_invariant(&*self);
        }
        if self.cap == self.buf.len() {
            // double the allocated space, for small sizes,
            // else allocated extra DEFAULT_BUF_SIZE
            let len = self.cap - self.pos;
            let growth = if len < DEFAULT_BUF_SIZE {
                len
            } else {
                DEFAULT_BUF_SIZE
            };
            if len > usize::MAX - growth {
                return 0;
            }
            let new_len = len + growth;
            let mut new_buf = vec![0u8; new_len];
            let mut i: usize = 0;
            while i < len
                invariant
                    i <= len,
                    len == self.cap - self.pos,
                    self.pos <= self.cap <= self.buf@.len(),
                    *self == *old(self),
                    new_buf@.len() == new_len,
                    len <= new_len,
                    new_buf@.take(i as int) == self.buf@.subrange(
                        self.pos as int,
                        self.pos + i,
                    ),
                decreases len - i,
            {
                let ghost before = new_buf@;
                new_buf[i] = self.buf[self.pos + i];
                proof {
                    assert(new_buf@.take(i + 1) == before.take(i as int).push(
                        self.buf@[self.pos + i],
                    ));
                    assert(self.buf@.subrange(self.pos as int, self.pos + i + 1)
                        == self.buf@.subrange(self.pos as int, self.pos + i).push(
                        self.buf@[self.pos + i],
                    ));
                }
                i = i + 1;
            }
            self.pos = 0;
            self.cap = len;
            self.buf = new_buf;
            assert(self@.window == old(self)@.window) by {
                assert(self.buf@.subrange(0, len as int) == self.buf@.take(len as int));
            }
        }
        proof {
            use_type_invariant(&*self);
        }
        self.buf.len() - self.cap
    }

    /// Takes in what one read of the source gave, and says whether to read
    /// again: only a read that filled the room exactly may have left more
    /// behind.
    fn absorb(&mut self, outcome: Result<Vec<u8>, TransportError>) -> (r: Result<bool, Error>)
        ensures
            match spec_absorb(old(self)@.room(), outcome) {
                Ok((bytes, again)) => r == Ok::<bool, Error>(again) && final(self)@ == old(
                    self,
                )@.extend(bytes),
                Err(kind) => r is Err && r->Err_0@.kind == kind && final(self)@ == old(self)@,
            },
            final(self)@.consistent(),
    {
        proof {
            use_type_invariant(&*self);
        }
        let room = self.buf.len() - self.cap;
        match outcome {
            Ok(bytes) => {
                let nread = bytes.len();
                if nread > room {
                    return Err(
                        Error::new(ErrorKind::Internal, "source returned more than was asked for"),
                    );
                }
                let mut i: usize = 0;
                while i < nread
                    invariant
                        i <= nread,
                        nread == bytes@.len(),
                        nread <= self.buf@.len() - self.cap,
                        self.buf@.len() <= usize::MAX,
                        self.pos == old(self).pos,
                        self.cap == old(self).cap,
                        self.buf@.len() == old(self).buf@.len(),
                        self.pos <= self.cap,
                        self.pos == self.cap ==> self.cap == 0,
                        self.buf@.take(self.cap as int) == old(self).buf@.take(self.cap as int),
                        self.buf@.subrange(self.cap as int, self.cap + i) == bytes@.take(i as int),
                    decreases nread - i,
                {
                    let ghost before = self.buf@;
                    let at = self.cap + i;
                    self.buf[at] = bytes[i];
                    proof {
                        assert(self.buf@ == before.update(at as int, bytes@[i as int]));
                        assert(self.buf@.take(self.cap as int) == before.take(self.cap as int));
                        assert(self.buf@.subrange(self.cap as int, self.cap + i + 1)
                            == before.subrange(self.cap as int, self.cap + i).push(
                            bytes@[i as int],
                        ));
                        assert(bytes@.take(i + 1) == bytes@.take(i as int).push(bytes@[i as int]));
                    }
                    i = i + 1;
                }
                proof {
                    let ghost old_window = old(self)@.window;
                    assert(bytes@.take(nread as int) == bytes@);
                    assert(self.buf@.subrange(self.pos as int, self.cap + nread) == old_window
                        + bytes@) by {
                        assert(self.buf@.subrange(self.pos as int, self.cap as int)
                            == self.buf@.take(self.cap as int).subrange(
                            self.pos as int,
                            self.cap as int,
                        ));
                        assert(old_window == old(self).buf@.take(self.cap as int).subrange(
                            self.pos as int,
                            self.cap as int,
                        ));
                        assert(self.buf@.subrange(self.pos as int, self.cap + nread)
                            == self.buf@.subrange(self.pos as int, self.cap as int)
                            + self.buf@.subrange(self.cap as int, self.cap + nread));
                    }
                }
                self.cap = self.cap + nread;
                proof {
                    use_type_invariant(&*self);
                }
                // if we read exactly until our buffer is full, there could be more data
                Ok(nread == room && room > 0)
            },
            Err(e) => {
                match e.kind() {
                    TransportErrorKind::WouldBlock => {
                        assert(self@.window + Seq::<u8>::empty() == self@.window);
                        Ok(false)
                    },
                    TransportErrorKind::Failed => Err(Error::transport(e)),
                }
            },
        }
    }
}

/// The frame at the front of `window`, as it is read once it is all there.
pub open spec fn spec_poll(window: Seq<u8>) -> Option<Decoded<FrameKindView>> {
    if holds_frame(window) {
        Some(spec_read_frame(window, usize::MAX as nat))
    } else {
        None
    }
}

/// Whether `r` and `after` are what polling the buffer `before` gives:
/// nothing and no change while the frame at the front is not whole; else
/// the frame, or the error of reading it, and a window without the octets
/// that reading took.
pub open spec fn polled(before: BufferView, r: Result<Option<FrameKind>, Error>, after: BufferView) -> bool {
    match spec_poll(before.window) {
        None => r matches Ok(None) && after == before,
        Some(decoded) => {
            &&& after == before.consume(decoded.consumed)
            &&& match decoded.outcome {
                Ok(frame) => r matches Ok(Some(read)) && read@ == frame,
                Err(kind) => r matches Err(e) && e@.kind == kind,
            }
        },
    }
}

/// Whether `r` and `after` are what comes of a fill from `start`, to which
/// the source answers with `answers` and `last`, and of polling the buffer
/// `filled` that the fill leaves: a fill that fails is the error, and the
/// buffer is not polled.
pub open spec fn tried(
    start: BufferView,
    answers: Seq<Result<Vec<u8>, TransportError>>,
    last: Option<Result<Vec<u8>, TransportError>>,
    filled: BufferView,
    r: Result<Option<FrameKind>, Error>,
    after: BufferView,
) -> bool {
    ||| spec_filled(start, answers, last, filled, false) && polled(filled, r, after)
    ||| spec_filled(start, answers, last, filled, true) && after == filled && r is Err
        && r->Err_0@.kind == ErrorKind::Internal
}

impl Store {
    fn poll_frame(&mut self) -> (r: Result<Option<FrameKind>, Error>)
        ensures
            polled(old(self)@, r, final(self)@),
            final(self)@.consistent(),
    {
        let len = self.len();
        if len < 3 {
            return Ok(None);
        }
        let announced = read_uint(self.range(0, 3), 3);
        proof {
            let head = self@.window.subrange(0, 3);
            assert(head.take(3) == head);
            assert(head == self@.window.take(3));
            lemma_uint_be_bound(head);
            lemma_limits();
        }
        let payload_len = announced as usize;
        if len < HEADER_SIZE + payload_len {
            return Ok(None);
        }
        let mut reader = SliceReader::new(self.range(0, len));
        assert(self@.window.subrange(0, len as int) == self@.window);
        let r = reader.read_frame();
        proof {
            lemma_read_frame_consumed(self@.window, usize::MAX as nat);
        }
        let used = len - reader.remaining();
        self.consume(used);
        match r {
            Ok(frame) => Ok(Some(frame)),
            Err(e) => Err(e),
        }
    }
}

/// Reading a frame never takes more than the input holds.
pub proof fn lemma_read_frame_consumed(input: Seq<u8>, max: nat)
    ensures
        spec_read_frame(input, max).consumed <= input.len(),
{
    if input.len() >= HEADER_SIZE {
        crate::frame::lemma_dispatch_consumed(
            crate::frame::HeaderView::from_bytes(input.take(HEADER_SIZE as int)),
            input.skip(HEADER_SIZE as int),
        );
    }
}

/// The `AsyncBufReader` adds asynchronous buffering to any reader.
///
/// contiguous growable, sliding buffer
#[derive(Debug)]
pub struct AsyncBufReader<R> {
    inner: R,
    store: Store,
}

impl<R> View for AsyncBufReader<R> {
    type V = BufferView;

    closed spec fn view(&self) -> BufferView {
        self.store@
    }
}

impl<R> AsyncBufReader<R> {
    /// The source that the buffer is filled from.
    pub closed spec fn source(&self) -> R {
        self.inner
    }

    /// An empty buffer in front of `inner`.
    pub fn new(inner: R) -> (reader: AsyncBufReader<R>)
        ensures
            reader@ == (BufferView {
                window: Seq::empty(),
                pos: 0,
                cap: 0,
                capacity: INITIAL_BUF_SIZE as nat,
            }),
            reader.source() == inner,
    {
        AsyncBufReader { inner: inner, store: Store::new() }
    }

    /// The number of octets that can be read.
    pub fn len(&self) -> (n: usize)
        ensures
            n == self@.window.len(),
            self@.consistent(),
    {
        self.store.len()
    }

    /// The source, to hand it what the buffer cannot. What is done to it
    /// there is done to the buffer's source; the buffer itself stays as it
    /// is.
    pub fn get_mut(&mut self) -> (inner: &mut R)
        ensures
            *inner == old(self).source(),
            final(self).source() == *final(inner),
            final(self)@ == old(self)@,
    {
        &mut self.inner
    }

    /// The octet at `index` of the window.
    pub fn at(&self, index: usize) -> (octet: u8)
        requires
            index < self@.window.len(),
        ensures
            octet == self@.window[index as int],
    {
        let _ = self.store.len();
        self.store.range(index, index + 1)[0]
    }

    /// The octets of the window from `start` up to `end`.
    pub fn range(&self, start: usize, end: usize) -> (octets: &[u8])
        requires
            start <= end <= self@.window.len(),
        ensures
            octets@ == self@.window.subrange(start as int, end as int),
    {
        self.store.range(start, end)
    }

    /// The first `end` octets of the window.
    pub fn prefix(&self, end: usize) -> (octets: &[u8])
        requires
            end <= self@.window.len(),
        ensures
            octets@ == self@.window.take(end as int),
    {
        self.store.range(0, end)
    }

    /// The window from `start` on.
    pub fn suffix(&self, start: usize) -> (octets: &[u8])
        requires
            start <= self@.window.len(),
        ensures
            octets@ == self@.window.skip(start as int),
    {
        let len = self.store.len();
        self.store.range(start, len)
    }

    /// The whole window.
    pub fn whole(&self) -> (octets: &[u8])
        ensures
            octets@ == self@.window,
    {
        let len = self.store.len();
        let octets = self.store.range(0, len);
        assert(self@.window.subrange(0, len as int) == self@.window);
        octets
    }

    /// Drops the first `amt` octets of the window, or all of them where it
    /// has no more. Once the window is empty, it is back at the start of
    /// the store.
    pub fn consume(&mut self, amt: usize)
        ensures
            final(self)@ == old(self)@.consume(amt as nat),
            amt >= old(self)@.window.len() ==> final(self)@.pos == 0 && final(self)@.cap == 0,
            final(self)@.consistent(),
    {
        self.store.consume(amt)
    }

    /// Moves octets from the front of the window into `dst`, as many as
    /// both hold, and says how many.
    pub fn read(&mut self, dst: &mut [u8]) -> (n: usize)
        ensures
            n == if old(dst)@.len() <= old(self)@.window.len() {
                old(dst)@.len()
            } else {
                old(self)@.window.len()
            },
            final(dst)@ == old(self)@.window.take(n as int) + old(dst)@.skip(n as int),
            final(self)@ == old(self)@.consume(n as nat),
            final(self)@.consistent(),
    {
        self.store.read(dst)
    }

    /// Makes room behind the window, as far as there can be, and says how
    /// much there is. A full store gives way to a larger one, with the
    /// window moved to its start.
    pub fn reserve(&mut self) -> (room: usize)
        ensures
            final(self)@ == old(self)@.reserve(),
            room == final(self)@.room(),
            room == 0 <==> old(self)@.cap == old(self)@.capacity && old(self)@.window.len() + old(
                self,
            )@.growth() > usize::MAX,
            final(self)@.consistent(),
    {
        self.store.reserve()
    }

    /// Takes in what one read of the source gave, and says whether to read
    /// again: only a read that filled the room exactly may have left more
    /// behind.
    pub fn absorb(&mut self, outcome: Result<Vec<u8>, TransportError>) -> (r: Result<bool, Error>)
        ensures
            match spec_absorb(old(self)@.room(), outcome) {
                Ok((bytes, again)) => r == Ok::<bool, Error>(again) && final(self)@ == old(
                    self,
                )@.extend(bytes),
                Err(kind) => r is Err && r->Err_0@.kind == kind && final(self)@ == old(self)@,
            },
            final(self)@.consistent(),
    {
        self.store.absorb(outcome)
    }

    /// Reads the frame at the front of the window, if it is all there.
    /// Nothing is asked of the source.
    pub fn poll_frame(&mut self) -> (r: Result<Option<FrameKind>, Error>)
        ensures
            polled(old(self)@, r, final(self)@),
            final(self)@.consistent(),
    {
        self.store.poll_frame()
    }
}

impl<R: ByteSource> AsyncBufReader<R> {
    /// Takes in all that the source has at the moment, and hands out the
    /// window. The source is read until it gives less than there is room
    /// for; where it would block, it has given nothing. Octets that were in
    /// the window stay there, in front of the new ones.
    pub fn fill_buf(&mut self) -> (r: Result<&[u8], Error>)
        ensures
            exists|
                answers: Seq<Result<Vec<u8>, TransportError>>,
                last: Option<Result<Vec<u8>, TransportError>>,
                failed: bool,
            | #[trigger]
                spec_filled(old(self)@, answers, last, final(self)@, failed) && failed == r is Err,
            starts_with(final(self)@.window, old(self)@.window),
            final(self)@.consistent(),
            r matches Ok(octets) ==> octets@ == final(self)@.window,
            r matches Err(e) ==> e@.kind == ErrorKind::Internal,
    {
        let _ = self.len();
        assert(self@.window.take(self@.window.len() as int) == self@.window);
        let ghost mut answers: Seq<Result<Vec<u8>, TransportError>> = Seq::empty();
        loop
            invariant_except_break
                spec_refilled(old(self)@, answers) == Some(self@),
            invariant
                starts_with(self@.window, old(self)@.window),
                self@.consistent(),
            ensures
                exists|last: Option<Result<Vec<u8>, TransportError>>|
                    #[trigger] spec_filled(old(self)@, answers, last, self@, false),
            decreases usize::MAX - self@.window.len(),
        {
            let ghost before = self@;
            let room = self.reserve();
            if room == 0 {
                let r: Result<&[u8], Error> = Err(
                    Error::new(ErrorKind::Internal, "buffer cannot grow any further"),
                );
                assert(spec_filled(old(self)@, answers, None, self@, r is Err));
                return r;
            }
            let outcome = self.inner.pull(room);
            let ghost answer = outcome;
            match self.absorb(outcome) {
                Ok(again) => {
                    proof {
                        if again {
                            assert(answers.push(answer).drop_last() == answers);
                            answers = answers.push(answer);
                        } else {
                            assert(spec_filled(old(self)@, answers, Some(answer), self@, false));
                        }
                        assert(starts_with(self@.window, before.window)) by {
                            assert(self@.window.take(before.window.len() as int) == before.window);
                        }
                        assert(self@.window.take(old(self)@.window.len() as int) == before.window.take(
                            old(self)@.window.len() as int,
                        ));
                    }
                    if !again {
                        break ;
                    }
                },
                Err(e) => {
                    let r: Result<&[u8], Error> = Err(e);
                    assert(spec_filled(old(self)@, answers, Some(answer), self@, r is Err));
                    return r;
                },
            }
        }
        let ghost last = choose|last: Option<Result<Vec<u8>, TransportError>>|
            #[trigger] spec_filled(old(self)@, answers, last, self@, false);
        let ghost end = self@;
        let r: Result<&[u8], Error> = Ok(self.whole());
        assert(spec_filled(old(self)@, answers, last, end, r is Err));
        r
    }

    /// Takes in what the source has, then reads the frame at the front of
    /// the window, if it is all there by now.
    pub fn try_read_frame(&mut self) -> (r: Result<Option<FrameKind>, Error>)
        ensures
            exists|
                answers: Seq<Result<Vec<u8>, TransportError>>,
                last: Option<Result<Vec<u8>, TransportError>>,
                filled: BufferView,
            | #[trigger]
                tried(old(self)@, answers, last, filled, r, final(self)@),
            final(self)@.consistent(),
    {
        let failure = match self.fill_buf() {
            Ok(_) => None,
            Err(e) => Some(e),
        };
        let ghost filled = self@;
        let ghost (answers, last, failed) = choose|
            answers: Seq<Result<Vec<u8>, TransportError>>,
            last: Option<Result<Vec<u8>, TransportError>>,
            failed: bool,
        | #[trigger]
            spec_filled(old(self)@, answers, last, filled, failed) && failed == failure is Some;
        let r = match failure {
            Some(e) => Err(e),
            None => self.poll_frame(),
        };
        assert(tried(old(self)@, answers, last, filled, r, self@));
        r
    }
}

/// As a reader, the buffer yields its window and asks nothing of the source.
impl<R> ByteReader for AsyncBufReader<R> {
    open spec fn unread(&self) -> Seq<u8> {
        self@.window
    }

    fn read_exact(&mut self, n: usize) -> (r: Result<Vec<u8>, Error>)
        ensures
            final(self)@ == old(self)@.consume(n as nat),
    {
        let len = self.len();
        if n <= len {
            let taken = slice_to_vec(self.prefix(n));
            self.consume(n);
            Ok(taken)
        } else {
            self.consume(n);
            Err(Error::new(ErrorKind::Internal, "failed to fill whole buffer"))
        }
    }
}

/// A buffer whose window has been consumed whole is back at the start of
/// its store: both cursors are zero, consuming again changes nothing, and
/// what is taken in next lies at the start of the store.
pub proof fn lemma_drained_starts_over(buffer: BufferView, amt: nat, again: nat, bytes: Seq<u8>)
    requires
        buffer.consistent(),
        amt >= buffer.window.len(),
    ensures
        buffer.consume(amt).pos == 0 && buffer.consume(amt).cap == 0,
        buffer.consume(amt).consume(again) == buffer.consume(amt),
        buffer.consume(amt).reserve().extend(bytes) == (BufferView {
            window: bytes,
            pos: 0,
            cap: bytes.len(),
            capacity: buffer.capacity,
        }),
{
    assert(Seq::<u8>::empty() + bytes == bytes);
}

/// A frame that arrives in two parts is read once, when the second part
/// is there. In a buffer with an empty window, the first part alone is
/// polled to no avail and stays where it is; both parts together are
/// polled as this frame; and then the window is empty and holds no other.
pub proof fn lemma_partial_read(start: BufferView, frame: FrameKindView, split: nat)
    requires
        start.window.len() == 0,
        frame.valid(),
        split <= frame.to_bytes().len(),
    ensures
        ({
            let first = start.extend(frame.to_bytes().take(split as int));
            let both = first.extend(frame.to_bytes().skip(split as int));
            let decoded = Decoded { outcome: Ok(frame), consumed: frame.to_bytes().len() };
            &&& split < frame.to_bytes().len() ==> spec_poll(first.window) is None
            &&& spec_poll(both.window) == Some(decoded)
            &&& both.consume(decoded.consumed).window.len() == 0
            &&& spec_poll(both.consume(decoded.consumed).window) is None
        }),
{
    let bytes = frame.to_bytes();
    let first = start.extend(bytes.take(split as int));
    let both = first.extend(bytes.skip(split as int));
    if split < bytes.len() {
        lemma_prefix_holds_no_frame(frame, split);
    }
    assert(first.window == bytes.take(split as int));
    assert(both.window == bytes);
    assert(bytes + Seq::<u8>::empty() == bytes);
    lemma_frame_is_held(frame, Seq::empty());
    lemma_frame_round_trip(frame, Seq::empty(), usize::MAX as nat);
}

/// A buffer in front of a source, and the longest payload to accept from it.
#[derive(Debug)]
pub struct FrameReader<R> {
    inner: AsyncBufReader<R>,
    max_payload: usize,
}

impl<R> FrameReader<R> {
    /// The state of the buffer.
    pub closed spec fn buffer(&self) -> BufferView {
        self.inner@
    }

    /// The longest payload that is accepted.
    pub closed spec fn spec_max_payload(&self) -> nat {
        self.max_payload as nat
    }

    /// The source that the buffer is filled from.
    pub closed spec fn source(&self) -> R {
        self.inner.source()
    }
}

impl<R: ByteSource> FrameReader<R> {
    pub fn new(inner: R, max_payload: usize) -> (reader: FrameReader<R>)
        ensures
            reader.buffer() == (BufferView {
                window: Seq::empty(),
                pos: 0,
                cap: 0,
                capacity: INITIAL_BUF_SIZE as nat,
            }),
            reader.spec_max_payload() == max_payload,
            reader.source() == inner,
    {
        FrameReader { inner: AsyncBufReader::new(inner), max_payload: max_payload }
    }

    /// Takes in what the source has, and hands out an iterator over the
    /// frames in the window. The iterator consumes nothing.
    pub fn frames(&mut self) -> (r: Result<FrameIter<'_>, Error>)
        ensures
            exists|
                answers: Seq<Result<Vec<u8>, TransportError>>,
                last: Option<Result<Vec<u8>, TransportError>>,
                failed: bool,
            | #[trigger]
                spec_filled(old(self).buffer(), answers, last, final(self).buffer(), failed)
                    && failed == r is Err,
            starts_with(final(self).buffer().window, old(self).buffer().window),
            final(self).spec_max_payload() == old(self).spec_max_payload(),
            r matches Ok(iter) ==> iter.source() == final(self).buffer().window
                && iter.spec_position() == 0 && iter.spec_max_payload() == old(
                self,
            ).spec_max_payload(),
            r matches Err(e) ==> e@.kind == ErrorKind::Internal,
    {
        let failure = match self.inner.fill_buf() {
            Ok(_) => None,
            Err(e) => Some(e),
        };
        let ghost (answers, last, failed) = choose|
            answers: Seq<Result<Vec<u8>, TransportError>>,
            last: Option<Result<Vec<u8>, TransportError>>,
            failed: bool,
        | #[trigger]
            spec_filled(old(self).buffer(), answers, last, self.buffer(), failed) && failed
                == failure is Some;
        match failure {
            Some(e) => Err(e),
            None => Ok(FrameIter::new(self.inner.whole(), self.max_payload)),
        }
    }

    /// The source, to hand it what the buffer cannot. What is done to it
    /// there is done to the reader's source; the buffer and the limit stay
    /// as they are.
    pub fn get_mut(&mut self) -> (inner: &mut R)
        ensures
            *inner == old(self).source(),
            final(self).source() == *final(inner),
            final(self).buffer() == old(self).buffer(),
            final(self).spec_max_payload() == old(self).spec_max_payload(),
    {
        self.inner.get_mut()
    }

    /// Drops the first `amt` octets of the window: the frames that an
    /// iterator has yielded.
    pub fn consume(&mut self, amt: usize)
        ensures
            final(self).buffer() == old(self).buffer().consume(amt as nat),
            final(self).spec_max_payload() == old(self).spec_max_payload(),
    {
        self.inner.consume(amt)
    }
}

} // verus!
