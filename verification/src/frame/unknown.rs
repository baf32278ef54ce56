//! A frame of a type that this endpoint does not interpret. Its payload is
//! kept as it came, so that the frame can be sent on unchanged.

use crate::error::{Error, ErrorKind};
use crate::frame::{header_of, Decoded, Flags, Frame, FrameHeader, FrameType, HeaderView};
use crate::io::{append, ByteReader};
use crate::StreamId;
use vstd::prelude::*;

verus! {

/// What a frame of an unknown type holds.
pub struct UnknownView {
    pub stream_id: nat,
    pub flags: u8,
    pub frame_type: FrameType,
    pub payload: Seq<u8>,
}

/// A frame of an unknown type.
#[derive(Debug, Clone, PartialEq)]
pub struct UnknownFrame {
    stream_id: StreamId,
    flags: Flags,
    frame_type: FrameType,
    payload: Vec<u8>,
}

impl View for UnknownFrame {
    type V = UnknownView;

    closed spec fn view(&self) -> UnknownView {
        UnknownView {
            stream_id: self.stream_id@,
            flags: self.flags@,
            frame_type: self.frame_type,
            payload: self.payload@,
        }
    }
}

impl UnknownFrame {
    pub fn new(stream_id: StreamId, flags: Flags, frame_type: FrameType, payload: Vec<u8>) -> (frame:
        UnknownFrame)
        ensures
            frame@ == (UnknownView {
                stream_id: stream_id@,
                flags: flags@,
                frame_type,
                payload: payload@,
            }),
    {
        UnknownFrame {
            stream_id: stream_id,
            flags: flags,
            frame_type: frame_type,
            payload: payload,
        }
    }

    /// The payload, as it came.
    pub fn payload(&self) -> (payload: &[u8])
        ensures
            payload@ == self@.payload,
    {
        self.payload.as_slice()
    }
}

impl Frame for UnknownFrame {
    /// The decoder fails only where the payload is not all there.
    open spec fn spec_decode(header: HeaderView, input: Seq<u8>) -> Decoded<UnknownView> {
        if input.len() < header.payload_len {
            Decoded { outcome: Err(ErrorKind::Internal), consumed: input.len() }
        } else {
            Decoded {
                outcome: Ok(
                    UnknownView {
                        stream_id: header.stream_id,
                        flags: header.flags,
                        frame_type: header.frame_type,
                        payload: input.take(header.payload_len as int),
                    },
                ),
                consumed: header.payload_len,
            }
        }
    }

    open spec fn spec_payload(frame: UnknownView) -> Seq<u8> {
        frame.payload
    }

    open spec fn spec_frame_type(frame: UnknownView) -> FrameType {
        frame.frame_type
    }

    open spec fn spec_flags(frame: UnknownView) -> u8 {
        frame.flags
    }

    open spec fn spec_stream_id(frame: UnknownView) -> nat {
        frame.stream_id
    }

    fn from_reader<R: ByteReader>(header: FrameHeader, reader: &mut R) -> (r: Result<Self, Error>) {
        proof {
            assert(reader.unread().skip(reader.unread().len() as int) == Seq::<u8>::empty());
        }
        let payload = match reader.read_exact(header.payload_len()) {
            Ok(payload) => payload,
            Err(e) => {
                return Err(e);
            },
        };
        Ok(
            UnknownFrame {
                stream_id: header.stream_id(),
                flags: header.flags(),
                frame_type: header.frame_type(),
                payload: payload,
            },
        )
    }

    fn into_writer(self, writer: &mut Vec<u8>) {
        append(writer, self.payload.as_slice());
    }

    fn payload_len(&self) -> (n: usize) {
        self.payload.len()
    }

    fn frame_type(&self) -> (t: FrameType) {
        self.frame_type
    }

    fn flags(&self) -> (f: Flags) {
        self.flags
    }

    fn stream_id(&self) -> (id: StreamId) {
        self.stream_id
    }
}

/// Type, flags, stream and payload come back from the wire as they went,
/// whatever they are.
pub proof fn lemma_unknown_round_trip(frame: UnknownView, tail: Seq<u8>)
    ensures
        UnknownFrame::spec_decode(
            header_of::<UnknownFrame>(frame),
            UnknownFrame::spec_payload(frame) + tail,
        ) == (Decoded { outcome: Ok(frame), consumed: UnknownFrame::spec_payload(frame).len() }),
{
    assert((frame.payload + tail).take(frame.payload.len() as int) == frame.payload);
}

} // verus!
