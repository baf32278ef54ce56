//! The PRIORITY frame, which is also the priority record inside a HEADERS
//! frame: a dependency on another stream, an exclusive bit and a weight.

use crate::endian::{
    be_bytes, lemma_be_bytes_len, lemma_limits, lemma_uint_of_be_bytes, read_u32, uint_be,
    write_u32,
};
use crate::error::{Error, ErrorKind};
use crate::frame::{Decoded, Flags, Frame, FrameHeader, FrameType, HeaderView, header_of};
use crate::io::{append, ByteReader};
use crate::{StreamId, STREAM_ID_LIMIT};
use vstd::prelude::*;

verus! {

pub const TYPE_PRIORITY: FrameType = 0x2;

pub const PRIORITY_PAYLOAD_LENGTH: usize = 5;

pub const DEFAULT_WEIGHT: u16 = 16;

/// What a PRIORITY frame holds. The weight is the one that is advertised,
/// one more than the octet on the wire.
pub struct PriorityView {
    pub stream_id: nat,
    pub exclusive: bool,
    pub dependency: nat,
    pub weight: nat,
}

impl PriorityView {
    /// What a decoder can return: a stream other than zero, identifiers of
    /// 31 bits, and a weight from 1 to 256.
    pub open spec fn valid(self) -> bool {
        &&& 0 < self.stream_id < STREAM_ID_LIMIT
        &&& self.dependency < STREAM_ID_LIMIT
        &&& 1 <= self.weight <= 256
    }

    /// The five octets on the wire: the exclusive bit above the dependency,
    /// then the weight less one.
    pub open spec fn record(self) -> Seq<u8> {
        be_bytes(
            self.dependency + if self.exclusive {
                STREAM_ID_LIMIT as nat
            } else {
                0
            },
            4,
        ).push((self.weight - 1) as u8)
    }

    /// What five octets mean on the stream `stream_id`.
    pub open spec fn from_record(record: Seq<u8>, stream_id: nat) -> PriorityView {
        let word = uint_be(record.subrange(0, 4));
        PriorityView {
            stream_id,
            exclusive: word >= STREAM_ID_LIMIT,
            dependency: word % (STREAM_ID_LIMIT as nat),
            weight: record[4] as nat + 1,
        }
    }
}

/// A PRIORITY frame.
#[derive(Debug, Clone, Copy, PartialEq, Eq)]
pub struct PriorityFrame {
    stream_id: StreamId,
    exclusive: bool,
    dependency: StreamId,
    weight: u16,
}

impl View for PriorityFrame {
    type V = PriorityView;

    closed spec fn view(&self) -> PriorityView {
        PriorityView {
            stream_id: self.stream_id@,
            exclusive: self.exclusive,
            dependency: self.dependency@,
            weight: self.weight as nat,
        }
    }
}

impl PriorityFrame {
    #[verifier::type_invariant]
    spec fn weight_in_range(self) -> bool {
        1 <= self.weight <= 256
    }

    /// A frame for `stream_id` that depends on no stream, with the default
    /// weight.
    pub fn new(stream_id: StreamId) -> (frame: PriorityFrame)
        ensures
            frame@ == (PriorityView {
                stream_id: stream_id@,
                exclusive: false,
                dependency: 0,
                weight: DEFAULT_WEIGHT as nat,
            }),
    {
        PriorityFrame {
            stream_id: stream_id,
            exclusive: false,
            dependency: StreamId::new(0),
            weight: DEFAULT_WEIGHT,
        }
    }

    /// The same frame with a dependency on `stream_id`.
    pub fn dependency(self, stream_id: StreamId) -> (frame: PriorityFrame)
        ensures
            frame@ == (PriorityView { dependency: stream_id@, ..self@ }),
    {
        proof {
            use_type_invariant(&self);
        }
        PriorityFrame {
            stream_id: self.stream_id,
            exclusive: self.exclusive,
            dependency: stream_id,
            weight: self.weight,
        }
    }

    /// The same frame with the exclusive bit set.
    pub fn exclusive(self) -> (frame: PriorityFrame)
        ensures
            frame@ == (PriorityView { exclusive: true, ..self@ }),
    {
        proof {
            use_type_invariant(&self);
        }
        PriorityFrame {
            stream_id: self.stream_id,
            exclusive: true,
            dependency: self.dependency,
            weight: self.weight,
        }
    }

    pub fn is_exclusive(&self) -> (exclusive: bool)
        ensures
            exclusive == self@.exclusive,
    {
        self.exclusive
    }

    /// The advertised weight, from 1 to 256.
    pub fn weight(&self) -> (weight: u16)
        ensures
            weight == self@.weight,
            1 <= weight <= 256,
    {
        proof {
            use_type_invariant(self);
        }
        self.weight
    }

    /// The stream that this one depends on.
    pub fn depends_on(&self) -> (id: StreamId)
        ensures
            id@ == self@.dependency,
    {
        self.dependency
    }

    /// Reads the five octets of a priority record for the stream
    /// `stream_id`. A reader that holds fewer is emptied, and the error is
    /// `Internal`.
    pub fn read_record<R: ByteReader>(stream_id: StreamId, reader: &mut R) -> (r: Result<
        PriorityFrame,
        Error,
    >)
        ensures
            old(reader).unread().len() >= PRIORITY_PAYLOAD_LENGTH ==> r is Ok && r->Ok_0@
                == PriorityView::from_record(
                old(reader).unread().take(PRIORITY_PAYLOAD_LENGTH as int),
                stream_id@,
            ) && final(reader).unread() == old(reader).unread().skip(
                PRIORITY_PAYLOAD_LENGTH as int,
            ),
            old(reader).unread().len() < PRIORITY_PAYLOAD_LENGTH ==> r is Err && r->Err_0@.kind
                == ErrorKind::Internal && final(reader).unread() == Seq::<u8>::empty(),
    {
        let buf = match reader.read_exact(PRIORITY_PAYLOAD_LENGTH) {
            Ok(buf) => buf,
            Err(e) => {
                return Err(e);
            },
        };
        let dep = read_u32(buf.as_slice());
        // Add one to the value to obtain a weight between 1 and 256 (section 6.3)
        let weight = buf[4] as u16 + 1;
        proof {
            assert(buf@.take(4) == buf@.subrange(0, 4));
            assert((dep & 0x8000_0000 != 0) == (dep >= 0x8000_0000)) by (bit_vector);
        }
        Ok(
            PriorityFrame {
                stream_id: stream_id,
                exclusive: dep & 0x8000_0000 != 0,
                dependency: StreamId::new(dep),
                weight: weight,
            },
        )
    }

    /// Appends the five octets of the record to `writer`.
    pub fn write_record(&self, writer: &mut Vec<u8>)
        ensures
            final(writer)@ == old(writer)@ + self@.record(),
    {
        proof {
            use_type_invariant(self);
        }
        let mut buf = [0u8;5];
        let mut dep: u32 = self.dependency.value();
        if self.exclusive {
            assert(dep < 0x8000_0000 ==> dep | 0x8000_0000 == dep + 0x8000_0000) by (bit_vector);
            dep = dep | 0x8000_0000;
        }
        write_u32(&mut buf, dep);
        buf[4] = (self.weight - 1) as u8;
        proof {
            lemma_be_bytes_len(dep as nat, 4);
            assert(buf@ == self@.record());
        }
        append(writer, buf.as_slice());
    }
}

impl Frame for PriorityFrame {
    open spec fn spec_decode(header: HeaderView, input: Seq<u8>) -> Decoded<PriorityView> {
        if header.stream_id == 0 {
            Decoded { outcome: Err(ErrorKind::Protocol), consumed: 0 }
        } else if header.payload_len != PRIORITY_PAYLOAD_LENGTH {
            Decoded { outcome: Err(ErrorKind::FrameSize), consumed: 0 }
        } else if input.len() < PRIORITY_PAYLOAD_LENGTH {
            Decoded { outcome: Err(ErrorKind::Internal), consumed: input.len() }
        } else {
            Decoded {
                outcome: Ok(
                    PriorityView::from_record(
                        input.take(PRIORITY_PAYLOAD_LENGTH as int),
                        header.stream_id,
                    ),
                ),
                consumed: PRIORITY_PAYLOAD_LENGTH as nat,
            }
        }
    }

    open spec fn spec_payload(frame: PriorityView) -> Seq<u8> {
        frame.record()
    }

    open spec fn spec_frame_type(frame: PriorityView) -> FrameType {
        TYPE_PRIORITY
    }

    open spec fn spec_flags(frame: PriorityView) -> u8 {
        0
    }

    open spec fn spec_stream_id(frame: PriorityView) -> nat {
        frame.stream_id
    }

    fn from_reader<R: ByteReader>(header: FrameHeader, reader: &mut R) -> (r: Result<Self, Error>) {
        proof {
            assert(reader.unread().skip(0) == reader.unread());
            assert(reader.unread().skip(reader.unread().len() as int) == Seq::<u8>::empty());
        }
        if header.stream_id().is_zero() {
            return Err(
                Error::protocol(
                    "Priority frame must be associated with a stream, stream id was zero",
                ),
            );
        }
        if header.payload_len() != PRIORITY_PAYLOAD_LENGTH {
            return Err(
                Error::frame_size(
                    "Bad payload length! The payload length for a priority frame must be 5 octets",
                ),
            );
        }
        Self::read_record(header.stream_id(), reader)
    }

    fn into_writer(self, writer: &mut Vec<u8>) {
        self.write_record(writer)
    }

    fn payload_len(&self) -> (n: usize) {
        proof {
            lemma_record_len(self@);
        }
        PRIORITY_PAYLOAD_LENGTH
    }

    fn frame_type(&self) -> (t: FrameType) {
        TYPE_PRIORITY
    }

    fn flags(&self) -> (f: Flags) {
        Flags::empty()
    }

    fn stream_id(&self) -> (id: StreamId) {
        self.stream_id
    }
}

/// A record has five octets.
pub proof fn lemma_record_len(frame: PriorityView)
    ensures
        frame.record().len() == PRIORITY_PAYLOAD_LENGTH,
{
    lemma_be_bytes_len(
        frame.dependency + if frame.exclusive {
            STREAM_ID_LIMIT as nat
        } else {
            0
        },
        4,
    );
}

/// A record is read back as it was written, when the dependency has 31
/// bits and the weight is between 1 and 256.
pub proof fn lemma_record_round_trip(frame: PriorityView)
    requires
        frame.dependency < STREAM_ID_LIMIT,
        1 <= frame.weight <= 256,
    ensures
        PriorityView::from_record(frame.record(), frame.stream_id) == frame,
{
    let word = frame.dependency + if frame.exclusive {
        STREAM_ID_LIMIT as nat
    } else {
        0
    };
    lemma_be_bytes_len(word, 4);
    lemma_limits();
    lemma_uint_of_be_bytes(word, 4);
    assert(frame.record().subrange(0, 4) == be_bytes(word, 4));
}

/// A valid frame is decoded from its own header and payload as itself, and
/// nothing behind the payload is touched.
pub proof fn lemma_priority_round_trip(frame: PriorityView, tail: Seq<u8>)
    requires
        frame.valid(),
    ensures
        PriorityFrame::spec_decode(
            header_of::<PriorityFrame>(frame),
            PriorityFrame::spec_payload(frame) + tail,
        ) == (Decoded { outcome: Ok(frame), consumed: PriorityFrame::spec_payload(frame).len() }),
{
    lemma_record_len(frame);
    lemma_record_round_trip(frame);
    assert((frame.record() + tail).take(PRIORITY_PAYLOAD_LENGTH as int) == frame.record());
}

/// Whatever is decoded under a legal header is valid.
pub proof fn lemma_priority_decoded_valid(header: HeaderView, input: Seq<u8>)
    requires
        header.legal(),
    ensures
        PriorityFrame::spec_decode(header, input).outcome matches Ok(frame) ==> frame.valid(),
{
}

/// A PRIORITY frame on stream zero is a protocol error.
pub proof fn lemma_priority_stream_must_not_be_zero(header: HeaderView, input: Seq<u8>)
    requires
        header.stream_id == 0,
    ensures
        PriorityFrame::spec_decode(header, input).outcome == Err::<PriorityView, ErrorKind>(
            ErrorKind::Protocol,
        ),
{
}

/// A PRIORITY frame whose payload has not five octets is a frame size error.
pub proof fn lemma_priority_length_must_be_five(header: HeaderView, input: Seq<u8>)
    requires
        header.stream_id != 0,
        header.payload_len != 5,
    ensures
        PriorityFrame::spec_decode(header, input).outcome == Err::<PriorityView, ErrorKind>(
            ErrorKind::FrameSize,
        ),
{
}

} // verus!
