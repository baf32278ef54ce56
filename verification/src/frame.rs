//! Frames: the nine-octet header, the trait that every frame variant
//! implements, and reading and writing whole frames.

use crate::endian::{
    be_bytes, lemma_be_bytes_len, lemma_limits, lemma_uint_be_bound, lemma_uint_of_be_bytes,
    read_u32, read_uint, uint_be, write_u32, write_uint,
};
use crate::error::{Error, ErrorKind};
use crate::frame::headers::{
    lemma_headers_consumed, lemma_headers_decoded_valid, lemma_headers_round_trip, HeadersFrame,
    HeadersView, TYPE_HEADERS,
};
use crate::frame::priority::{
    lemma_priority_decoded_valid, lemma_priority_round_trip, lemma_record_len, PriorityFrame,
    PriorityView, TYPE_PRIORITY,
};
use crate::frame::settings::{
    lemma_read_pairs_consumed, lemma_read_pairs_len, lemma_settings_bytes_len,
    lemma_settings_decoded_valid, lemma_settings_round_trip, SettingsFrame, SettingsView,
    TYPE_SETTINGS,
};
use crate::frame::unknown::{lemma_unknown_round_trip, UnknownFrame, UnknownView};
use crate::io::{append, ByteReader, SliceReader};
use crate::{StreamId, STREAM_ID_LIMIT};
use vstd::prelude::*;
use vstd::slice::slice_subrange;

pub mod headers;
pub mod priority;
pub mod settings;
pub mod unknown;

verus! {

pub type FrameType = u8;

/// The length of a frame header on the wire.
pub const HEADER_SIZE: usize = 9;

/// The longest payload that a header can announce: 2^24 - 1 octets.
pub const MAX_PAYLOAD_LEN: usize = 0xff_ffff;

pub const FLAG_ACK: u8 = 0x01;

pub const FLAG_END_STREAM: u8 = 0x01;

pub const FLAG_END_HEADERS: u8 = 0x04;

pub const FLAG_PADDED: u8 = 0x08;

pub const FLAG_PRIORITY: u8 = 0x20;

/// Whether all bits of `mask` are set in `bits`.
pub open spec fn flag_set(bits: u8, mask: u8) -> bool {
    bits & mask == mask
}

/// The flags octet of a frame. All eight bits are kept, known or not.
#[derive(Clone, Copy, PartialEq, Eq, Debug)]
pub struct Flags {
    bits: u8,
}

impl View for Flags {
    type V = u8;

    closed spec fn view(&self) -> u8 {
        self.bits
    }
}

impl Flags {
    pub fn empty() -> (f: Flags)
        ensures
            f@ == 0,
    {
        Flags { bits: 0 }
    }

    pub fn from_bits(bits: u8) -> (f: Flags)
        ensures
            f@ == bits,
    {
        Flags { bits }
    }

    pub fn bits(&self) -> (bits: u8)
        ensures
            bits == self@,
    {
        self.bits
    }

    pub fn contains(&self, mask: u8) -> (yes: bool)
        ensures
            yes == flag_set(self@, mask),
    {
        self.bits & mask == mask
    }

    pub fn insert(&mut self, mask: u8)
        ensures
            final(self)@ == old(self)@ | mask,
    {
        self.bits = self.bits | mask;
    }
}

/// What a frame header says.
pub struct HeaderView {
    pub payload_len: nat,
    pub frame_type: u8,
    pub flags: u8,
    pub stream_id: nat,
}

impl HeaderView {
    /// The length fits in 24 bits and the stream identifier in 31.
    pub open spec fn legal(self) -> bool {
        self.payload_len <= MAX_PAYLOAD_LEN && self.stream_id < STREAM_ID_LIMIT
    }

    /// The header on the wire: length, type, flags, then the stream
    /// identifier under a cleared reserved bit.
    pub open spec fn to_bytes(self) -> Seq<u8> {
        be_bytes(self.payload_len, 3) + seq![self.frame_type, self.flags] + be_bytes(
            self.stream_id,
            4,
        )
    }

    /// The header that nine octets spell. The reserved bit is ignored.
    pub open spec fn from_bytes(bytes: Seq<u8>) -> HeaderView {
        HeaderView {
            payload_len: uint_be(bytes.subrange(0, 3)),
            frame_type: bytes[3],
            flags: bytes[4],
            stream_id: uint_be(bytes.subrange(5, 9)) % (STREAM_ID_LIMIT as nat),
        }
    }
}

/// Decoding undoes encoding, for every legal header.
pub proof fn lemma_header_round_trip(h: HeaderView)
    requires
        h.legal(),
    ensures
        h.to_bytes().len() == HEADER_SIZE,
        HeaderView::from_bytes(h.to_bytes()) == h,
{
    let bytes = h.to_bytes();
    lemma_be_bytes_len(h.payload_len, 3);
    lemma_be_bytes_len(h.stream_id, 4);
    lemma_limits();
    lemma_uint_of_be_bytes(h.payload_len, 3);
    lemma_uint_of_be_bytes(h.stream_id, 4);
    assert(bytes.subrange(0, 3) == be_bytes(h.payload_len, 3));
    assert(bytes.subrange(5, 9) == be_bytes(h.stream_id, 4));
}

/// Whatever nine octets hold, the header read from them is legal: the
/// reserved bit never reaches the stream identifier.
pub proof fn lemma_decoded_header_legal(bytes: Seq<u8>)
    requires
        bytes.len() == HEADER_SIZE,
    ensures
        HeaderView::from_bytes(bytes).legal(),
{
    lemma_uint_be_bound(bytes.subrange(0, 3));
    lemma_limits();
}

/// The header of a frame.
#[derive(Clone, Copy, PartialEq, Eq, Debug)]
pub struct FrameHeader {
    payload_len: usize,
    frame_type: FrameType,
    flags: Flags,
    stream_id: StreamId,
}

impl View for FrameHeader {
    type V = HeaderView;

    closed spec fn view(&self) -> HeaderView {
        HeaderView {
            payload_len: self.payload_len as nat,
            frame_type: self.frame_type,
            flags: self.flags@,
            stream_id: self.stream_id@,
        }
    }
}

impl FrameHeader {
    #[verifier::type_invariant]
    spec fn length_fits(self) -> bool {
        self.payload_len <= MAX_PAYLOAD_LEN
    }

    /// A header of the given fields, unless the length does not fit in 24 bits.
    pub fn from_parts(
        payload_len: usize,
        frame_type: FrameType,
        flags: Flags,
        stream_id: StreamId,
    ) -> (r: Option<FrameHeader>)
        ensures
            r is Some <==> payload_len <= MAX_PAYLOAD_LEN,
            r matches Some(h) ==> h@ == (HeaderView {
                payload_len: payload_len as nat,
                frame_type,
                flags: flags@,
                stream_id: stream_id@,
            }),
    {
        if payload_len <= MAX_PAYLOAD_LEN {
            Some(FrameHeader { payload_len, frame_type, flags, stream_id })
        } else {
            None
        }
    }

    pub fn payload_len(&self) -> (n: usize)
        ensures
            n == self@.payload_len,
            n <= MAX_PAYLOAD_LEN,
    {
        proof {
            use_type_invariant(self);
        }
        self.payload_len
    }

    pub fn frame_type(&self) -> (t: FrameType)
        ensures
            t == self@.frame_type,
    {
        self.frame_type
    }

    pub fn flags(&self) -> (f: Flags)
        ensures
            f@ == self@.flags,
    {
        self.flags
    }

    pub fn stream_id(&self) -> (id: StreamId)
        ensures
            id@ == self@.stream_id,
    {
        self.stream_id
    }

    /// Reads the nine octets of a header. A reader that holds fewer is
    /// emptied, and the error is `Internal`.
    pub fn from_reader<R: ByteReader>(reader: &mut R) -> (r: Result<FrameHeader, Error>)
        ensures
            old(reader).unread().len() >= HEADER_SIZE ==> r is Ok && r->Ok_0@
                == HeaderView::from_bytes(old(reader).unread().take(HEADER_SIZE as int))
                && final(reader).unread() == old(reader).unread().skip(HEADER_SIZE as int),
            old(reader).unread().len() < HEADER_SIZE ==> r is Err && r->Err_0@.kind
                == ErrorKind::Internal && final(reader).unread() == Seq::<u8>::empty(),
    {
        let buf = match reader.read_exact(HEADER_SIZE) {
            Ok(buf) => buf,
            Err(e) => {
                return Err(e);
            },
        };
        let len = read_uint(buf.as_slice(), 3);
        let id = read_u32(slice_subrange(buf.as_slice(), 5, 9));
        proof {
            lemma_uint_be_bound(buf@.take(3));
            lemma_limits();
            assert(buf@.take(3) == buf@.subrange(0, 3));
            assert(buf@.subrange(5, 9).take(4) == buf@.subrange(5, 9));
        }
        Ok(
            FrameHeader {
                payload_len: len as usize,
                frame_type: buf[3],
                flags: Flags::from_bits(buf[4]),
                stream_id: StreamId::new(id),
            },
        )
    }

    /// Writes the nine octets of the header.
    pub fn into_writer(self, writer: &mut Vec<u8>)
        ensures
            final(writer)@ == old(writer)@ + self@.to_bytes(),
    {
        proof {
            use_type_invariant(&self);
            lemma_limits();
        }
        let mut len_buf = [0u8;3];
        write_uint(&mut len_buf, self.payload_len as u64, 3);
        let mut id_buf = [0u8;4];
        write_u32(&mut id_buf, self.stream_id.value());
        proof {
            lemma_be_bytes_len(self.payload_len as nat, 3);
            lemma_be_bytes_len(self.stream_id@, 4);
            assert(len_buf@ == be_bytes(self.payload_len as nat, 3));
            assert(id_buf@ == be_bytes(self.stream_id@, 4));
        }
        append(writer, len_buf.as_slice());
        writer.push(self.frame_type);
        writer.push(self.flags.bits());
        append(writer, id_buf.as_slice());
        assert(writer@ == old(writer)@ + self@.to_bytes());
    }
}

/// What decoding makes of some input: a frame or the kind of the error, and
/// how many octets of the input are used up on the way.
pub struct Decoded<V> {
    pub outcome: Result<V, ErrorKind>,
    pub consumed: nat,
}

/// Whether `r` is the frame, or an error of the kind, that `expected` names.
pub open spec fn agrees<F: View>(r: Result<F, Error>, expected: Result<F::V, ErrorKind>) -> bool {
    match (r, expected) {
        (Ok(frame), Ok(v)) => frame@ == v,
        (Err(e), Err(kind)) => e@.kind == kind,
        _ => false,
    }
}

/// A frame variant: its payload layout and the header fields it implies.
pub trait Frame: Sized + View {
    /// What the decoder makes of `input`, the octets after a header that
    /// reads `header`.
    spec fn spec_decode(header: HeaderView, input: Seq<u8>) -> Decoded<Self::V>;

    /// The payload of `frame` on the wire.
    spec fn spec_payload(frame: Self::V) -> Seq<u8>;

    spec fn spec_frame_type(frame: Self::V) -> FrameType;

    spec fn spec_flags(frame: Self::V) -> u8;

    spec fn spec_stream_id(frame: Self::V) -> nat;

    /// Decodes the payload that follows `header`, taking from `reader`
    /// exactly the octets that `spec_decode` counts.
    fn from_reader<R: ByteReader>(header: FrameHeader, reader: &mut R) -> (r: Result<Self, Error>)
        ensures
            agrees(r, Self::spec_decode(header@, old(reader).unread()).outcome),
            final(reader).unread() == old(reader).unread().skip(
                Self::spec_decode(header@, old(reader).unread()).consumed as int,
            ),
    ;

    /// Appends the payload to `writer`.
    fn into_writer(self, writer: &mut Vec<u8>)
        ensures
            final(writer)@ == old(writer)@ + Self::spec_payload(self@),
    ;

    fn payload_len(&self) -> (n: usize)
        requires
            Self::spec_payload(self@).len() <= usize::MAX,
        ensures
            n == Self::spec_payload(self@).len(),
    ;

    fn frame_type(&self) -> (t: FrameType)
        ensures
            t == Self::spec_frame_type(self@),
    ;

    fn flags(&self) -> (f: Flags)
        ensures
            f@ == Self::spec_flags(self@),
    ;

    fn stream_id(&self) -> (id: StreamId)
        ensures
            id@ == Self::spec_stream_id(self@),
    ;
}

/// The header that goes in front of `frame`.
pub open spec fn header_of<F: Frame>(frame: F::V) -> HeaderView {
    HeaderView {
        payload_len: F::spec_payload(frame).len(),
        frame_type: F::spec_frame_type(frame),
        flags: F::spec_flags(frame),
        stream_id: F::spec_stream_id(frame),
    }
}

/// `frame` on the wire: header, then payload.
pub open spec fn frame_bytes<F: Frame>(frame: F::V) -> Seq<u8> {
    header_of::<F>(frame).to_bytes() + F::spec_payload(frame)
}

impl FrameHeader {
    /// The header of `frame`. The payload has to fit in 24 bits.
    pub fn new<F: Frame>(frame: &F) -> (h: FrameHeader)
        requires
            F::spec_payload(frame@).len() <= MAX_PAYLOAD_LEN,
        ensures
            h@ == header_of::<F>(frame@),
    {
        FrameHeader {
            payload_len: frame.payload_len(),
            frame_type: frame.frame_type(),
            flags: frame.flags(),
            stream_id: frame.stream_id(),
        }
    }
}

/// A decoded frame of any variant.
#[derive(Debug, Clone, PartialEq)]
pub enum FrameKind {
    Headers(HeadersFrame),
    Priority(PriorityFrame),
    Settings(SettingsFrame),
    Unknown(UnknownFrame),
}

/// What a frame of any variant holds.
pub enum FrameKindView {
    Headers(HeadersView),
    Priority(PriorityView),
    Settings(SettingsView),
    Unknown(UnknownView),
}

impl View for FrameKind {
    type V = FrameKindView;

    open spec fn view(&self) -> FrameKindView {
        match self {
            FrameKind::Headers(frame) => FrameKindView::Headers(frame@),
            FrameKind::Priority(frame) => FrameKindView::Priority(frame@),
            FrameKind::Settings(frame) => FrameKindView::Settings(frame@),
            FrameKind::Unknown(frame) => FrameKindView::Unknown(frame@),
        }
    }
}

impl FrameKindView {
    /// The payload on the wire.
    pub open spec fn payload(self) -> Seq<u8> {
        match self {
            FrameKindView::Headers(frame) => HeadersFrame::spec_payload(frame),
            FrameKindView::Priority(frame) => PriorityFrame::spec_payload(frame),
            FrameKindView::Settings(frame) => SettingsFrame::spec_payload(frame),
            FrameKindView::Unknown(frame) => UnknownFrame::spec_payload(frame),
        }
    }

    /// The frame on the wire: header, then payload.
    pub open spec fn to_bytes(self) -> Seq<u8> {
        frame_bytes::<FrameKind>(self)
    }

    /// The frames that a decoder returns: each variant valid in its own
    /// terms, with a payload that a header can announce; for a frame of an
    /// unknown type, a type that no other variant claims and a stream
    /// identifier of 31 bits.
    pub open spec fn valid(self) -> bool {
        &&& self.payload().len() <= MAX_PAYLOAD_LEN
        &&& match self {
            FrameKindView::Headers(frame) => frame.valid(),
            FrameKindView::Priority(frame) => frame.valid(),
            FrameKindView::Settings(frame) => frame.valid(),
            FrameKindView::Unknown(frame) => {
                &&& frame.stream_id < STREAM_ID_LIMIT
                &&& frame.frame_type != TYPE_HEADERS
                &&& frame.frame_type != TYPE_PRIORITY
                &&& frame.frame_type != TYPE_SETTINGS
            },
        }
    }
}

/// `decoded`, seen as a frame of any variant.
pub open spec fn lift<V>(decoded: Decoded<V>, wrap: spec_fn(V) -> FrameKindView) -> Decoded<
    FrameKindView,
> {
    Decoded {
        outcome: match decoded.outcome {
            Ok(frame) => Ok(wrap(frame)),
            Err(kind) => Err(kind),
        },
        consumed: decoded.consumed,
    }
}

/// The decoder of the variant that the type in `header` selects, applied
/// to `input`. A type that no variant claims gives a frame of an unknown type.
pub open spec fn spec_dispatch(header: HeaderView, input: Seq<u8>) -> Decoded<FrameKindView> {
    if header.frame_type == TYPE_HEADERS {
        lift(
            HeadersFrame::spec_decode(header, input),
            |frame: HeadersView| FrameKindView::Headers(frame),
        )
    } else if header.frame_type == TYPE_SETTINGS {
        lift(
            SettingsFrame::spec_decode(header, input),
            |frame: SettingsView| FrameKindView::Settings(frame),
        )
    } else if header.frame_type == TYPE_PRIORITY {
        lift(
            PriorityFrame::spec_decode(header, input),
            |frame: PriorityView| FrameKindView::Priority(frame),
        )
    } else {
        lift(
            UnknownFrame::spec_decode(header, input),
            |frame: UnknownView| FrameKindView::Unknown(frame),
        )
    }
}

/// A frame of any variant is a frame: it is decoded by the variant that the
/// header's type selects, and written as the variant that it is.
impl Frame for FrameKind {
    open spec fn spec_decode(header: HeaderView, input: Seq<u8>) -> Decoded<FrameKindView> {
        spec_dispatch(header, input)
    }

    open spec fn spec_payload(frame: FrameKindView) -> Seq<u8> {
        frame.payload()
    }

    open spec fn spec_frame_type(frame: FrameKindView) -> FrameType {
        match frame {
            FrameKindView::Headers(frame) => HeadersFrame::spec_frame_type(frame),
            FrameKindView::Priority(frame) => PriorityFrame::spec_frame_type(frame),
            FrameKindView::Settings(frame) => SettingsFrame::spec_frame_type(frame),
            FrameKindView::Unknown(frame) => UnknownFrame::spec_frame_type(frame),
        }
    }

    open spec fn spec_flags(frame: FrameKindView) -> u8 {
        match frame {
            FrameKindView::Headers(frame) => HeadersFrame::spec_flags(frame),
            FrameKindView::Priority(frame) => PriorityFrame::spec_flags(frame),
            FrameKindView::Settings(frame) => SettingsFrame::spec_flags(frame),
            FrameKindView::Unknown(frame) => UnknownFrame::spec_flags(frame),
        }
    }

    open spec fn spec_stream_id(frame: FrameKindView) -> nat {
        match frame {
            FrameKindView::Headers(frame) => HeadersFrame::spec_stream_id(frame),
            FrameKindView::Priority(frame) => PriorityFrame::spec_stream_id(frame),
            FrameKindView::Settings(frame) => SettingsFrame::spec_stream_id(frame),
            FrameKindView::Unknown(frame) => UnknownFrame::spec_stream_id(frame),
        }
    }

    fn from_reader<R: ByteReader>(header: FrameHeader, reader: &mut R) -> (r: Result<Self, Error>) {
        let frame_type = header.frame_type();
        assert(Self::spec_decode(header@, reader.unread()) == spec_dispatch(
            header@,
            reader.unread(),
        ));
        if frame_type == TYPE_HEADERS {
            match HeadersFrame::from_reader(header, reader) {
                Ok(frame) => Ok(FrameKind::Headers(frame)),
                Err(e) => Err(e),
            }
        } else if frame_type == TYPE_SETTINGS {
            match SettingsFrame::from_reader(header, reader) {
                Ok(frame) => Ok(FrameKind::Settings(frame)),
                Err(e) => Err(e),
            }
        } else if frame_type == TYPE_PRIORITY {
            match PriorityFrame::from_reader(header, reader) {
                Ok(frame) => Ok(FrameKind::Priority(frame)),
                Err(e) => Err(e),
            }
        } else {
            match UnknownFrame::from_reader(header, reader) {
                Ok(frame) => Ok(FrameKind::Unknown(frame)),
                Err(e) => Err(e),
            }
        }
    }

    fn into_writer(self, writer: &mut Vec<u8>) {
        match self {
            FrameKind::Headers(frame) => frame.into_writer(writer),
            FrameKind::Priority(frame) => frame.into_writer(writer),
            FrameKind::Settings(frame) => frame.into_writer(writer),
            FrameKind::Unknown(frame) => frame.into_writer(writer),
        }
    }

    fn payload_len(&self) -> (n: usize) {
        match self {
            FrameKind::Headers(frame) => frame.payload_len(),
            FrameKind::Priority(frame) => frame.payload_len(),
            FrameKind::Settings(frame) => frame.payload_len(),
            FrameKind::Unknown(frame) => frame.payload_len(),
        }
    }

    fn frame_type(&self) -> (t: FrameType) {
        match self {
            FrameKind::Headers(frame) => frame.frame_type(),
            FrameKind::Priority(frame) => frame.frame_type(),
            FrameKind::Settings(frame) => frame.frame_type(),
            FrameKind::Unknown(frame) => frame.frame_type(),
        }
    }

    fn flags(&self) -> (f: Flags) {
        match self {
            FrameKind::Headers(frame) => frame.flags(),
            FrameKind::Priority(frame) => frame.flags(),
            FrameKind::Settings(frame) => frame.flags(),
            FrameKind::Unknown(frame) => frame.flags(),
        }
    }

    fn stream_id(&self) -> (id: StreamId) {
        match self {
            FrameKind::Headers(frame) => frame.stream_id(),
            FrameKind::Priority(frame) => frame.stream_id(),
            FrameKind::Settings(frame) => frame.stream_id(),
            FrameKind::Unknown(frame) => frame.stream_id(),
        }
    }
}

/// Reading one frame from the front of `input`: nine octets of header,
/// refused if they announce more than `max` octets of payload, then the
/// payload as the frame's variant reads it.
pub open spec fn spec_read_frame(input: Seq<u8>, max: nat) -> Decoded<FrameKindView> {
    if input.len() < HEADER_SIZE {
        Decoded { outcome: Err(ErrorKind::Internal), consumed: input.len() }
    } else {
        let header = HeaderView::from_bytes(input.take(HEADER_SIZE as int));
        if header.payload_len > max {
            Decoded { outcome: Err(ErrorKind::FrameSize), consumed: HEADER_SIZE as nat }
        } else {
            let decoded = spec_dispatch(header, input.skip(HEADER_SIZE as int));
            Decoded { outcome: decoded.outcome, consumed: HEADER_SIZE as nat + decoded.consumed }
        }
    }
}

/// No decoder takes more than the input holds; and where the input holds
/// the payload that the header announces, none takes more than that.
pub proof fn lemma_dispatch_consumed(header: HeaderView, input: Seq<u8>)
    ensures
        spec_dispatch(header, input).consumed <= input.len(),
        input.len() >= header.payload_len ==> spec_dispatch(header, input).consumed
            <= header.payload_len,
{
    lemma_headers_consumed(header, input);
    lemma_read_pairs_consumed(input, header.payload_len / 6);
}

/// Reading frames from a reader in memory. Every `ByteReader` has it.
pub trait ReadFrame: ByteReader + Sized {
    /// Reads one frame, whatever length its header announces.
    fn read_frame(&mut self) -> (r: Result<FrameKind, Error>)
        ensures
            agrees(r, spec_read_frame(old(self).unread(), usize::MAX as nat).outcome),
            final(self).unread() == old(self).unread().skip(
                spec_read_frame(old(self).unread(), usize::MAX as nat).consumed as int,
            ),
    {
        self.read_frame_checked(usize::MAX)
    }

    /// Reads one frame, unless its header announces a payload of more than
    /// `max_size` octets.
    fn read_frame_checked(&mut self, max_size: usize) -> (r: Result<FrameKind, Error>)
        ensures
            agrees(r, spec_read_frame(old(self).unread(), max_size as nat).outcome),
            final(self).unread() == old(self).unread().skip(
                spec_read_frame(old(self).unread(), max_size as nat).consumed as int,
            ),
    {
        let ghost input = self.unread();
        proof {
            assert(input.skip(input.len() as int) == Seq::<u8>::empty());
        }
        let header = match FrameHeader::from_reader(self) {
            Ok(header) => header,
            Err(e) => {
                return Err(e);
            },
        };
        let ghost rest = input.skip(HEADER_SIZE as int);
        if header.payload_len() > max_size {
            return Err(
                Error::new(ErrorKind::FrameSize, "payload length exceeds max frame size setting"),
            );
        }
        let r = FrameKind::from_reader(header, self);
        proof {
            let consumed = spec_dispatch(header@, rest).consumed;
            lemma_dispatch_consumed(header@, rest);
            assert(rest.skip(consumed as int) == input.skip(HEADER_SIZE + consumed));
        }
        r
    }
}

impl<R: ByteReader> ReadFrame for R {

}

/// A writer that frames can be written to.
pub trait WriteFrame: Sized {
    /// The octets of all writes that the writer has taken, in order.
    spec fn written(&self) -> Seq<u8>;

    /// Whether the writer takes every write.
    spec fn reliable(&self) -> bool;

    /// Hands `bytes` over in one write, which is taken whole or fails.
    fn write_all(&mut self, bytes: &[u8]) -> (r: Result<(), Error>)
        ensures
            r is Ok ==> final(self).written() == old(self).written() + bytes@,
            r is Err ==> r->Err_0@.kind == ErrorKind::Internal && final(self).written() == old(
                self,
            ).written(),
            old(self).reliable() ==> r is Ok,
            final(self).reliable() == old(self).reliable(),
    ;

    /// Hands `frame` over in one write: header, then payload. The payload
    /// has to fit in the 24 bits of the header's length.
    fn write_frame<F: Frame>(&mut self, frame: F) -> (r: Result<(), Error>)
        requires
            F::spec_payload(frame@).len() <= MAX_PAYLOAD_LEN,
        ensures
            r is Ok ==> final(self).written() == old(self).written() + frame_bytes::<F>(frame@),
            r is Err ==> r->Err_0@.kind == ErrorKind::Internal && final(self).written() == old(
                self,
            ).written(),
            old(self).reliable() ==> r is Ok,
            final(self).reliable() == old(self).reliable(),
    {
        let mut bytes: Vec<u8> = Vec::new();
        FrameHeader::new(&frame).into_writer(&mut bytes);
        frame.into_writer(&mut bytes);
        self.write_all(bytes.as_slice())
    }
}

/// A vector takes everything.
impl WriteFrame for Vec<u8> {
    open spec fn written(&self) -> Seq<u8> {
        self@
    }

    open spec fn reliable(&self) -> bool {
        true
    }

    fn write_all(&mut self, bytes: &[u8]) -> (r: Result<(), Error>) {
        append(self, bytes);
        Ok(())
    }
}

/// A frame on the wire is its nine octets of header and its payload.
pub proof fn lemma_frame_len(frame: FrameKindView)
    requires
        frame.valid(),
    ensures
        frame.to_bytes().len() == HEADER_SIZE + frame.payload().len(),
        frame.to_bytes().len() >= 3,
        uint_be(frame.to_bytes().take(3)) == frame.payload().len(),
{
    let header = header_of::<FrameKind>(frame);
    lemma_header_round_trip(header);
    let bytes = frame.to_bytes();
    assert(bytes == header.to_bytes() + frame.payload());
    assert(bytes.take(3) == header.to_bytes().subrange(0, 3));
}

/// Decoding undoes encoding: a valid frame is read back from its own
/// octets as itself, under any limit that admits its payload, and nothing
/// behind the frame is touched.
pub proof fn lemma_frame_round_trip(frame: FrameKindView, tail: Seq<u8>, max: nat)
    requires
        frame.valid(),
        frame.payload().len() <= max,
    ensures
        spec_read_frame(frame.to_bytes() + tail, max) == (Decoded {
            outcome: Ok(frame),
            consumed: frame.to_bytes().len(),
        }),
{
    let header = header_of::<FrameKind>(frame);
    let payload = frame.payload();
    let input = frame.to_bytes() + tail;
    lemma_header_round_trip(header);
    assert(frame.to_bytes() == header.to_bytes() + payload);
    assert(input.take(HEADER_SIZE as int) == header.to_bytes());
    assert(input.skip(HEADER_SIZE as int) == payload + tail);
    match frame {
        FrameKindView::Headers(f) => {
            lemma_headers_round_trip(f, tail);
        },
        FrameKindView::Priority(f) => {
            lemma_priority_round_trip(f, tail);
        },
        FrameKindView::Settings(f) => {
            lemma_settings_round_trip(f, tail);
        },
        FrameKindView::Unknown(f) => {
            lemma_unknown_round_trip(f, tail);
        },
    }
}

/// Every frame that is read is valid, so that it is read back from its own
/// octets as itself.
pub proof fn lemma_read_frame_round_trip(input: Seq<u8>, max: nat, tail: Seq<u8>)
    requires
        spec_read_frame(input, max).outcome is Ok,
    ensures
        ({
            let frame = spec_read_frame(input, max).outcome->Ok_0;
            &&& frame.valid()
            &&& frame.payload().len() <= max
            &&& spec_read_frame(frame.to_bytes() + tail, max) == (Decoded {
                outcome: Ok(frame),
                consumed: frame.to_bytes().len(),
            })
        }),
{
    let frame = spec_read_frame(input, max).outcome->Ok_0;
    let header = HeaderView::from_bytes(input.take(HEADER_SIZE as int));
    let rest = input.skip(HEADER_SIZE as int);
    lemma_decoded_header_legal(input.take(HEADER_SIZE as int));
    match frame {
        FrameKindView::Headers(f) => {
            lemma_headers_decoded_valid(header, rest);
            if f.priority is Some {
                lemma_record_len(f.priority->Some_0);
            }
        },
        FrameKindView::Priority(f) => {
            lemma_priority_decoded_valid(header, rest);
            lemma_record_len(f);
        },
        FrameKindView::Settings(f) => {
            lemma_settings_decoded_valid(header, rest);
            lemma_settings_bytes_len(f.settings);
            lemma_read_pairs_len(rest, header.payload_len / 6);
        },
        FrameKindView::Unknown(f) => {},
    }
    lemma_frame_round_trip(frame, tail, max);
}

/// A frame of a type that no variant claims keeps its type, flags, stream
/// and payload on the way over the wire.
pub proof fn lemma_unknown_type_preserved(
    frame_type: FrameType,
    flags: u8,
    stream_id: nat,
    payload: Seq<u8>,
    tail: Seq<u8>,
)
    requires
        frame_type != TYPE_HEADERS && frame_type != TYPE_PRIORITY && frame_type != TYPE_SETTINGS,
        stream_id < STREAM_ID_LIMIT,
        payload.len() <= MAX_PAYLOAD_LEN,
    ensures
        spec_read_frame(
            frame_bytes::<UnknownFrame>(UnknownView { stream_id, flags, frame_type, payload })
                + tail,
            usize::MAX as nat,
        ).outcome == Ok::<FrameKindView, ErrorKind>(
            FrameKindView::Unknown(UnknownView { stream_id, flags, frame_type, payload }),
        ),
{
    let frame = FrameKindView::Unknown(UnknownView { stream_id, flags, frame_type, payload });
    lemma_frame_round_trip(frame, tail, usize::MAX as nat);
}

/// A header that announces more than the limit is a frame size error,
/// whatever the type of the frame.
pub proof fn lemma_oversized_payload_refused(input: Seq<u8>, max: nat)
    requires
        input.len() >= HEADER_SIZE,
        uint_be(input.subrange(0, 3)) > max,
    ensures
        spec_read_frame(input, max) == (Decoded::<FrameKindView> {
            outcome: Err(ErrorKind::FrameSize),
            consumed: HEADER_SIZE as nat,
        }),
{
    assert(input.take(HEADER_SIZE as int).subrange(0, 3) == input.subrange(0, 3));
}

/// The length of the frame at the front of `bytes`, header and payload,
/// as far as the three octets of its length field are there.
pub open spec fn spec_frame_len(bytes: Seq<u8>) -> Option<nat> {
    if bytes.len() < 3 {
        None
    } else {
        Some(HEADER_SIZE as nat + uint_be(bytes.take(3)))
    }
}

/// Whether `bytes` start with a whole frame.
pub open spec fn holds_frame(bytes: Seq<u8>) -> bool {
    spec_frame_len(bytes) matches Some(len) && len <= bytes.len()
}

/// What one call of `FrameIter::next` yields, and where it leaves the cursor.
pub struct Step {
    pub item: Option<Result<FrameKindView, ErrorKind>>,
    pub position: nat,
}

/// One step over `buf` from `pos`: nothing while the frame at `pos` is not
/// whole; a frame size error, without a move, where it announces more than
/// `max`; else what reading the frame gives, and a move behind the frame.
#[verifier::opaque]
pub open spec fn spec_next(buf: Seq<u8>, pos: nat, max: nat) -> Step {
    let rest = buf.skip(pos as int);
    match spec_frame_len(rest) {
        None => Step { item: None, position: pos },
        Some(len) => if len - HEADER_SIZE > max {
            Step { item: Some(Err(ErrorKind::FrameSize)), position: pos }
        } else if rest.len() < len {
            Step { item: None, position: pos }
        } else {
            Step {
                item: Some(spec_read_frame(rest.take(len as int), usize::MAX as nat).outcome),
                position: pos + len,
            }
        },
    }
}

/// Whether `item` is what `expected` names.
pub open spec fn item_agrees(
    item: Option<Result<FrameKind, Error>>,
    expected: Option<Result<FrameKindView, ErrorKind>>,
) -> bool {
    match (item, expected) {
        (None, None) => true,
        (Some(r), Some(e)) => agrees(r, e),
        _ => false,
    }
}

/// Iterate over a slice of bytes yielding Frames
#[derive(Debug)]
pub struct FrameIter<'a> {
    buf: &'a [u8],
    pos: usize,
    max_payload: usize,
}

impl<'a> FrameIter<'a> {
    #[verifier::type_invariant]
    spec fn in_bounds(self) -> bool {
        self.pos <= self.buf@.len()
    }

    /// The octets that the iterator walks over.
    pub closed spec fn source(&self) -> Seq<u8> {
        self.buf@
    }

    /// Where the next frame starts.
    pub closed spec fn spec_position(&self) -> nat {
        self.pos as nat
    }

    /// The longest payload that is accepted.
    pub closed spec fn spec_max_payload(&self) -> nat {
        self.max_payload as nat
    }

    /// An iterator at the start of `buf` that refuses payloads over `max`.
    pub fn new(buf: &'a [u8], max: usize) -> (iter: FrameIter<'a>)
        ensures
            iter.source() == buf@,
            iter.spec_position() == 0,
            iter.spec_max_payload() == max,
    {
        FrameIter { buf: buf, pos: 0, max_payload: max }
    }

    /// How many octets lie behind the cursor.
    pub fn len(&self) -> (n: usize)
        ensures
            n == self.source().len() - self.spec_position(),
    {
        proof {
            use_type_invariant(self);
        }
        self.buf.len() - self.pos
    }

    /// How many octets the frames took that were yielded so far: what the
    /// owner of the buffer may consume.
    pub fn position(&self) -> (pos: usize)
        ensures
            pos == self.spec_position(),
            pos <= self.source().len(),
    {
        proof {
            use_type_invariant(self);
        }
        self.pos
    }

    /// The next frame, if it is all there.
    pub fn next(&mut self) -> (item: Option<Result<FrameKind, Error>>)
        ensures
            final(self).source() == old(self).source(),
            final(self).spec_max_payload() == old(self).spec_max_payload(),
            item_agrees(
                item,
                spec_next(
                    old(self).source(),
                    old(self).spec_position(),
                    old(self).spec_max_payload(),
                ).item,
            ),
            final(self).spec_position() == spec_next(
                old(self).source(),
                old(self).spec_position(),
                old(self).spec_max_payload(),
            ).position,
    {
        proof {
            use_type_invariant(&*self);
            reveal(spec_next);
        }
        if self.len() < 3 {
            return None;
        }
        let rest = slice_subrange(self.buf, self.pos, self.buf.len());
        let payload_len = read_uint(rest, 3) as usize;
        proof {
            lemma_uint_be_bound(rest@.take(3));
            lemma_limits();
        }
        if payload_len > self.max_payload {
            return Some(
                Err(
                    Error::new(
                        ErrorKind::FrameSize,
                        "payload length exceeds max frame size setting",
                    ),
                ),
            );
        }
        let size = payload_len + HEADER_SIZE;
        if self.len() < size {
            return None;
        }
        self.pos = self.pos + size;
        let mut reader = SliceReader::new(slice_subrange(rest, 0, size));
        Some(reader.read_frame())
    }
}

/// No proper prefix of a frame holds a frame.
pub proof fn lemma_prefix_holds_no_frame(frame: FrameKindView, len: nat)
    requires
        frame.valid(),
        len < frame.to_bytes().len(),
    ensures
        !holds_frame(frame.to_bytes().take(len as int)),
{
    lemma_frame_len(frame);
    let prefix = frame.to_bytes().take(len as int);
    if len >= 3 {
        assert(prefix.take(3) == frame.to_bytes().take(3));
    }
}

/// A frame, with whatever follows it, holds a frame of its own length.
pub proof fn lemma_frame_is_held(frame: FrameKindView, tail: Seq<u8>)
    requires
        frame.valid(),
    ensures
        spec_frame_len(frame.to_bytes() + tail) == Some(frame.to_bytes().len()),
        holds_frame(frame.to_bytes() + tail),
{
    lemma_frame_len(frame);
    assert((frame.to_bytes() + tail).take(3) == frame.to_bytes().take(3));
}

/// The octets of `frames`, one behind the other.
pub open spec fn wire(frames: Seq<FrameKindView>) -> Seq<u8>
    decreases frames.len(),
{
    if frames.len() == 0 {
        Seq::empty()
    } else {
        wire(frames.drop_last()) + frames.last().to_bytes()
    }
}

/// Where the cursor stands after `calls` calls of `next` on `buf`.
pub open spec fn spec_position_after(buf: Seq<u8>, max: nat, calls: nat) -> nat
    decreases calls,
{
    if calls == 0 {
        0
    } else {
        spec_next(buf, spec_position_after(buf, max, (calls - 1) as nat), max).position
    }
}

/// What the call of `next` yields that follows `calls` earlier ones.
pub open spec fn spec_nth_item(buf: Seq<u8>, max: nat, calls: nat) -> Option<
    Result<FrameKindView, ErrorKind>,
> {
    spec_next(buf, spec_position_after(buf, max, calls), max).item
}

/// Whether every frame is valid with a payload of at most `max` octets.
pub open spec fn all_fit(frames: Seq<FrameKindView>, max: nat) -> bool {
    forall|i: int|
        0 <= i < frames.len() ==> (#[trigger] frames[i]).valid() && frames[i].payload().len()
            <= max
}

/// At the start of a frame that fits, one step yields the frame and moves
/// behind it.
pub proof fn lemma_step_over_frame(
    buf: Seq<u8>,
    pos: nat,
    frame: FrameKindView,
    behind: Seq<u8>,
    max: nat,
)
    requires
        pos <= buf.len(),
        buf.skip(pos as int) == frame.to_bytes() + behind,
        frame.valid(),
        frame.payload().len() <= max,
    ensures
        spec_next(buf, pos, max) == (Step {
            item: Some(Ok(frame)),
            position: pos + frame.to_bytes().len(),
        }),
{
    reveal(spec_next);
    let bytes = frame.to_bytes();
    lemma_frame_is_held(frame, behind);
    lemma_frame_len(frame);
    assert((bytes + behind).take(bytes.len() as int) == bytes);
    assert(bytes + Seq::<u8>::empty() == bytes);
    lemma_frame_round_trip(frame, Seq::empty(), usize::MAX as nat);
}

/// In front of octets that hold no frame, and announce none that is too
/// long, one step yields nothing and does not move.
pub proof fn lemma_step_at_tail(buf: Seq<u8>, pos: nat, max: nat)
    requires
        pos <= buf.len(),
        !holds_frame(buf.skip(pos as int)),
        spec_frame_len(buf.skip(pos as int)) matches Some(len) ==> len - HEADER_SIZE <= max,
    ensures
        spec_next(buf, pos, max) == (Step { item: None, position: pos }),
{
    reveal(spec_next);
}

/// In front of a frame that announces more than the limit, one step yields
/// a frame size error and does not move.
pub proof fn lemma_step_refuses_oversized(buf: Seq<u8>, pos: nat, max: nat)
    requires
        pos + 3 <= buf.len(),
        uint_be(buf.subrange(pos as int, pos as int + 3)) > max,
    ensures
        spec_next(buf, pos, max) == (Step {
            item: Some(Err(ErrorKind::FrameSize)),
            position: pos,
        }),
{
    reveal(spec_next);
    assert(buf.skip(pos as int).take(3) == buf.subrange(pos as int, pos as int + 3));
}

/// Over whole frames and then a tail that holds no frame, the iterator
/// walks frame by frame: the call number `index` yields the frame number
/// `index` and stops behind it.
pub proof fn lemma_iter_yields_frames(
    frames: Seq<FrameKindView>,
    tail: Seq<u8>,
    max: nat,
    index: nat,
)
    requires
        all_fit(frames, max),
        index < frames.len(),
    ensures
        spec_position_after(wire(frames) + tail, max, index) == wire(frames.take(index as int)).len(),
        spec_nth_item(wire(frames) + tail, max, index) == Some(
            Ok::<FrameKindView, ErrorKind>(frames[index as int]),
        ),
        spec_position_after(wire(frames) + tail, max, index + 1) == wire(
            frames.take(index as int + 1),
        ).len(),
    decreases index,
{
    let buf = wire(frames) + tail;
    if index > 0 {
        lemma_iter_yields_frames(frames, tail, max, (index - 1) as nat);
    } else {
        assert(frames.take(0) == Seq::<FrameKindView>::empty());
    }
    let pos = wire(frames.take(index as int)).len();
    let frame = frames[index as int];
    lemma_wire_split(frames, index);
    let behind = wire(frames.skip(index as int + 1)) + tail;
    assert(buf.skip(pos as int) == frame.to_bytes() + behind);
    lemma_step_over_frame(buf, pos, frame, behind, max);
    assert(frames.take(index as int + 1).drop_last() == frames.take(index as int));
    assert(frames.take(index as int + 1).last() == frame);
}

/// The frames up to `index`, the frame at `index` and the frames behind
/// it make up the wire again.
pub proof fn lemma_wire_split(frames: Seq<FrameKindView>, index: nat)
    requires
        index < frames.len(),
    ensures
        wire(frames) == wire(frames.take(index as int)) + frames[index as int].to_bytes() + wire(
            frames.skip(index as int + 1),
        ),
    decreases frames.len(),
{
    let front = frames.drop_last();
    if index + 1 == frames.len() {
        assert(frames.take(index as int) == front);
        assert(frames.skip(index as int + 1) == Seq::<FrameKindView>::empty());
        assert(wire(frames.skip(index as int + 1)) == Seq::<u8>::empty());
    } else {
        lemma_wire_split(front, index);
        assert(front.take(index as int) == frames.take(index as int));
        assert(frames.skip(index as int + 1).drop_last() == front.skip(index as int + 1));
        assert(frames.skip(index as int + 1).last() == frames.last());
    }
}

/// On whole frames followed by a tail that holds no frame, the iterator
/// yields the frames, one per call and in order, and then nothing, however
/// often it is asked; and it leaves the cursor in front of the tail.
pub proof fn lemma_iter_halts_at_tail(
    frames: Seq<FrameKindView>,
    tail: Seq<u8>,
    max: nat,
    calls: nat,
)
    requires
        all_fit(frames, max),
        !holds_frame(tail),
        spec_frame_len(tail) matches Some(len) ==> len - HEADER_SIZE <= max,
    ensures
        calls < frames.len() ==> spec_nth_item(wire(frames) + tail, max, calls) == Some(
            Ok::<FrameKindView, ErrorKind>(frames[calls as int]),
        ),
        calls >= frames.len() ==> spec_nth_item(wire(frames) + tail, max, calls) is None
            && spec_position_after(wire(frames) + tail, max, calls) == wire(frames).len(),
    decreases calls,
{
    let buf = wire(frames) + tail;
    if calls < frames.len() {
        lemma_iter_yields_frames(frames, tail, max, calls);
    } else {
        if calls == frames.len() {
            if calls > 0 {
                lemma_iter_yields_frames(frames, tail, max, (calls - 1) as nat);
            }
            assert(frames.take(frames.len() as int) == frames);
        } else {
            lemma_iter_halts_at_tail(frames, tail, max, (calls - 1) as nat);
        }
        assert(buf.skip(wire(frames).len() as int) == tail);
        lemma_step_at_tail(buf, wire(frames).len(), max);
    }
}

/// On a stream of frames that is cut off inside a frame, the iterator
/// yields the frames in front of the cut, one per call and in order, and
/// then nothing; the cursor stays at the start of the frame that is cut.
pub proof fn lemma_iter_halts_in_frame(
    frames: Seq<FrameKindView>,
    cut_frame: FrameKindView,
    cut: nat,
    max: nat,
    calls: nat,
)
    requires
        all_fit(frames, max),
        cut_frame.valid(),
        cut_frame.payload().len() <= max,
        cut < cut_frame.to_bytes().len(),
    ensures
        ({
            let stream = wire(frames.push(cut_frame));
            let prefix = stream.take((wire(frames).len() + cut) as int);
            &&& wire(frames).len() + cut < stream.len()
            &&& calls < frames.len() ==> spec_nth_item(prefix, max, calls) == Some(
                Ok::<FrameKindView, ErrorKind>(frames[calls as int]),
            )
            &&& calls >= frames.len() ==> spec_nth_item(prefix, max, calls) is None
                && spec_position_after(prefix, max, calls) == wire(frames).len()
        }),
{
    let stream = wire(frames.push(cut_frame));
    let tail = cut_frame.to_bytes().take(cut as int);
    assert(frames.push(cut_frame).drop_last() == frames);
    assert(stream == wire(frames) + cut_frame.to_bytes());
    assert(stream.take((wire(frames).len() + cut) as int) == wire(frames) + tail);
    lemma_prefix_holds_no_frame(cut_frame, cut);
    lemma_frame_len(cut_frame);
    if cut >= 3 {
        assert(tail.take(3) == cut_frame.to_bytes().take(3));
    }
    lemma_iter_halts_at_tail(frames, tail, max, calls);
}

} // verus!
