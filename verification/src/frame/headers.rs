//! The HEADERS frame: a fragment of a header block, with an optional
//! priority record in front and optional padding around.

use crate::error::{Error, ErrorKind};
use crate::frame::priority::{
    lemma_record_len, lemma_record_round_trip, PriorityFrame, PriorityView,
    PRIORITY_PAYLOAD_LENGTH,
};
use crate::frame::{
    flag_set, header_of, Decoded, Flags, Frame, FrameHeader, FrameType, HeaderView,
    FLAG_END_HEADERS, FLAG_END_STREAM, FLAG_PADDED, FLAG_PRIORITY,
};
use crate::io::{append, ByteReader};
use crate::{StreamId, STREAM_ID_LIMIT};
use vstd::prelude::*;

verus! {

pub const TYPE_HEADERS: FrameType = 0x1;

/// What a HEADERS frame holds.
pub struct HeadersView {
    pub stream_id: nat,
    pub fragment: Seq<u8>,
    pub priority: Option<PriorityView>,
    pub end_headers: bool,
    pub end_stream: bool,
}

impl HeadersView {
    /// What a decoder can return: a stream other than zero, and a priority
    /// record, if any, that is valid and of the same stream.
    pub open spec fn valid(self) -> bool {
        &&& 0 < self.stream_id < STREAM_ID_LIMIT
        &&& self.priority matches Some(priority) ==> priority.valid() && priority.stream_id
            == self.stream_id
    }
}

/// The octets of a payload that are neither fragment nor padding: the pad
/// length, if the frame is padded, and the priority record, if it has one.
pub open spec fn fixed_len(flags: u8) -> nat {
    (if flag_set(flags, FLAG_PADDED) {
        1nat
    } else {
        0nat
    }) + (if flag_set(flags, FLAG_PRIORITY) {
        PRIORITY_PAYLOAD_LENGTH as nat
    } else {
        0nat
    })
}

/// A HEADERS frame.
#[derive(Debug, Clone, PartialEq)]
pub struct HeadersFrame {
    stream_id: StreamId,
    fragment: Vec<u8>,
    priority: Option<PriorityFrame>,
    end_headers: bool,
    end_stream: bool,
}

impl View for HeadersFrame {
    type V = HeadersView;

    closed spec fn view(&self) -> HeadersView {
        HeadersView {
            stream_id: self.stream_id@,
            fragment: self.fragment@,
            priority: match self.priority {
                Some(priority) => Some(priority@),
                None => None,
            },
            end_headers: self.end_headers,
            end_stream: self.end_stream,
        }
    }
}

impl HeadersFrame {
    /// An empty frame for `stream_id`.
    pub fn new(stream_id: StreamId) -> (frame: HeadersFrame)
        ensures
            frame@ == (HeadersView {
                stream_id: stream_id@,
                fragment: Seq::empty(),
                priority: None,
                end_headers: false,
                end_stream: false,
            }),
    {
        HeadersFrame {
            stream_id: stream_id,
            fragment: Vec::new(),
            priority: None,
            end_headers: false,
            end_stream: false,
        }
    }

    /// The same frame with the priority record `priority`.
    pub fn priority(self, priority: PriorityFrame) -> (frame: HeadersFrame)
        ensures
            frame@ == (HeadersView { priority: Some(priority@), ..self@ }),
    {
        let mut frame = self;
        frame.priority = Some(priority);
        frame
    }

    /// The same frame with the header block fragment `fragment`.
    pub fn fragment(self, fragment: Vec<u8>) -> (frame: HeadersFrame)
        ensures
            frame@ == (HeadersView { fragment: fragment@, ..self@ }),
    {
        let mut frame = self;
        frame.fragment = fragment;
        frame
    }

    /// The same frame, marked as the last of its header block.
    pub fn end_headers(self) -> (frame: HeadersFrame)
        ensures
            frame@ == (HeadersView { end_headers: true, ..self@ }),
    {
        let mut frame = self;
        frame.end_headers = true;
        frame
    }

    /// The same frame, marked as the last of its stream.
    pub fn end_stream(self) -> (frame: HeadersFrame)
        ensures
            frame@ == (HeadersView { end_stream: true, ..self@ }),
    {
        let mut frame = self;
        frame.end_stream = true;
        frame
    }

    /// The header block fragment, as it came.
    pub fn header_block_fragment(&self) -> (fragment: &[u8])
        ensures
            fragment@ == self@.fragment,
    {
        self.fragment.as_slice()
    }

    /// The priority record, if the frame has one.
    pub fn priority_record(&self) -> (priority: Option<PriorityFrame>)
        ensures
            priority is Some == self@.priority is Some,
            priority matches Some(p) ==> self@.priority == Some(p@),
    {
        self.priority
    }

    pub fn is_end_headers(&self) -> (end: bool)
        ensures
            end == self@.end_headers,
    {
        self.end_headers
    }

    pub fn is_end_stream(&self) -> (end: bool)
        ensures
            end == self@.end_stream,
    {
        self.end_stream
    }
}

impl Frame for HeadersFrame {
    /// In this order: a frame on stream zero is a protocol error; a payload
    /// too short for its pad length and priority record is a frame size
    /// error; a pad length beyond what is left of the payload is a protocol
    /// error; and a payload that is not all there is an internal error.
    open spec fn spec_decode(header: HeaderView, input: Seq<u8>) -> Decoded<HeadersView> {
        let padded = flag_set(header.flags, FLAG_PADDED);
        let fixed = fixed_len(header.flags);
        if header.stream_id == 0 {
            Decoded { outcome: Err(ErrorKind::Protocol), consumed: 0 }
        } else if header.payload_len < fixed {
            Decoded { outcome: Err(ErrorKind::FrameSize), consumed: 0 }
        } else if padded && input.len() == 0 {
            Decoded { outcome: Err(ErrorKind::Internal), consumed: 0 }
        } else if padded && input[0] > header.payload_len - fixed {
            Decoded { outcome: Err(ErrorKind::Protocol), consumed: 1 }
        } else if input.len() < header.payload_len {
            Decoded { outcome: Err(ErrorKind::Internal), consumed: input.len() }
        } else {
            let pad_len = if padded {
                input[0] as nat
            } else {
                0nat
            };
            let record_at = if padded {
                1int
            } else {
                0int
            };
            let fragment_at = fixed as int;
            Decoded {
                outcome: Ok(
                    HeadersView {
                        stream_id: header.stream_id,
                        fragment: input.subrange(fragment_at, header.payload_len - pad_len),
                        priority: if flag_set(header.flags, FLAG_PRIORITY) {
                            Some(
                                PriorityView::from_record(
                                    input.subrange(record_at, fragment_at),
                                    header.stream_id,
                                ),
                            )
                        } else {
                            None
                        },
                        end_headers: flag_set(header.flags, FLAG_END_HEADERS),
                        end_stream: flag_set(header.flags, FLAG_END_STREAM),
                    },
                ),
                consumed: header.payload_len,
            }
        }
    }

    /// The priority record, if any, then the fragment. No padding is written.
    open spec fn spec_payload(frame: HeadersView) -> Seq<u8> {
        (match frame.priority {
            Some(priority) => priority.record(),
            None => Seq::empty(),
        }) + frame.fragment
    }

    open spec fn spec_frame_type(frame: HeadersView) -> FrameType {
        TYPE_HEADERS
    }

    open spec fn spec_flags(frame: HeadersView) -> u8 {
        (if frame.end_headers {
            FLAG_END_HEADERS
        } else {
            0
        }) | (if frame.end_stream {
            FLAG_END_STREAM
        } else {
            0
        }) | (if frame.priority is Some {
            FLAG_PRIORITY
        } else {
            0
        })
    }

    open spec fn spec_stream_id(frame: HeadersView) -> nat {
        frame.stream_id
    }

    fn from_reader<R: ByteReader>(header: FrameHeader, reader: &mut R) -> (r: Result<Self, Error>) {
        let ghost input = reader.unread();
        proof {
            assert(input.skip(0) == input);
            assert(input.skip(input.len() as int) == Seq::<u8>::empty());
        }
        if header.stream_id().is_zero() {
            return Err(
                Error::protocol(
                    "Headers frame must be associated with a stream, stream id was zero",
                ),
            );
        }
        let padded = header.flags().contains(FLAG_PADDED);
        let has_priority = header.flags().contains(FLAG_PRIORITY);
        let mut fixed: usize = 0;
        if padded {
            fixed = fixed + 1;
        }
        if has_priority {
            fixed = fixed + PRIORITY_PAYLOAD_LENGTH;
        }
        let mut payload_len = header.payload_len();
        if payload_len < fixed {
            return Err(
                Error::frame_size(
                    "Headers frame is too short for its pad length and priority fields",
                ),
            );
        }
        let mut pad_len: usize = 0;
        if padded {
            let buf = match reader.read_exact(1) {
                Ok(buf) => buf,
                Err(e) => {
                    return Err(e);
                },
            };
            pad_len = buf[0] as usize;
            if pad_len > payload_len - fixed {
                return Err(Error::protocol("Headers frame padding exceeds the payload"));
            }
            payload_len = payload_len - (pad_len + 1);
        }
        let mut priority = None;
        if has_priority {
            let ghost before = reader.unread();
            let record = match PriorityFrame::read_record(header.stream_id(), reader) {
                Ok(record) => record,
                Err(e) => {
                    return Err(e);
                },
            };
            priority = Some(record);
            payload_len = payload_len - PRIORITY_PAYLOAD_LENGTH;
            proof {
                let record_at: int = if padded {
                    1
                } else {
                    0
                };
                assert(before.take(PRIORITY_PAYLOAD_LENGTH as int) == input.subrange(
                    record_at,
                    fixed as int,
                ));
            }
        }
        assert(reader.unread() == input.skip(fixed as int));
        let fragment = match reader.read_exact(payload_len) {
            Ok(fragment) => fragment,
            Err(e) => {
                return Err(e);
            },
        };
        assert(fragment@ == input.subrange(fixed as int, header@.payload_len - pad_len));
        assert(reader.unread() == input.skip(header@.payload_len - pad_len));
        // read, discard padding
        if padded {
            match reader.read_exact(pad_len) {
                Ok(_) => {},
                Err(e) => {
                    return Err(e);
                },
            }
        }
        assert(reader.unread() == input.skip(header@.payload_len as int));
        Ok(
            HeadersFrame {
                stream_id: header.stream_id(),
                fragment: fragment,
                priority: priority,
                end_headers: header.flags().contains(FLAG_END_HEADERS),
                end_stream: header.flags().contains(FLAG_END_STREAM),
            },
        )
    }

    fn into_writer(self, writer: &mut Vec<u8>) {
        if let Some(priority) = self.priority {
            priority.write_record(writer);
        }
        append(writer, self.fragment.as_slice());
    }

    fn payload_len(&self) -> (n: usize) {
        let mut len = self.fragment.len();
        if let Some(priority) = self.priority {
            proof {
                lemma_record_len(priority@);
            }
            len = len + PRIORITY_PAYLOAD_LENGTH;
        }
        len
    }

    fn frame_type(&self) -> (t: FrameType) {
        TYPE_HEADERS
    }

    fn flags(&self) -> (f: Flags) {
        let mut flags = Flags::empty();
        if self.end_headers {
            flags.insert(FLAG_END_HEADERS);
        }
        if self.end_stream {
            flags.insert(FLAG_END_STREAM);
        }
        if let Some(_) = self.priority {
            flags.insert(FLAG_PRIORITY);
        }
        proof {
            let a = if self.end_headers {
                FLAG_END_HEADERS
            } else {
                0
            };
            let b = if self.end_stream {
                FLAG_END_STREAM
            } else {
                0
            };
            let c = if self.priority is Some {
                FLAG_PRIORITY
            } else {
                0
            };
            assert(0u8 | a == a) by (bit_vector);
            assert(a | 0u8 == a) by (bit_vector);
            assert((a | b) | 0u8 == a | b) by (bit_vector);
        }
        flags
    }

    fn stream_id(&self) -> (id: StreamId) {
        self.stream_id
    }
}

/// The flags that an encoder sets say what the frame holds, and PADDED is
/// never among them.
pub proof fn lemma_headers_flags(frame: HeadersView)
    ensures
        flag_set(HeadersFrame::spec_flags(frame), FLAG_END_HEADERS) == frame.end_headers,
        flag_set(HeadersFrame::spec_flags(frame), FLAG_END_STREAM) == frame.end_stream,
        flag_set(HeadersFrame::spec_flags(frame), FLAG_PRIORITY) == frame.priority is Some,
        !flag_set(HeadersFrame::spec_flags(frame), FLAG_PADDED),
{
    let a: u8 = if frame.end_headers {
        FLAG_END_HEADERS
    } else {
        0
    };
    let b: u8 = if frame.end_stream {
        FLAG_END_STREAM
    } else {
        0
    };
    let c: u8 = if frame.priority is Some {
        FLAG_PRIORITY
    } else {
        0
    };
    assert((a == 0 || a == 4) && (b == 0 || b == 1) && (c == 0 || c == 0x20) ==> {
        &&& ((a | b | c) & 4 == 4) == (a == 4)
        &&& ((a | b | c) & 1 == 1) == (b == 1)
        &&& ((a | b | c) & 0x20 == 0x20) == (c == 0x20)
        &&& (a | b | c) & 8 != 8
    }) by (bit_vector);
}

/// A valid frame is decoded from its own header and payload as itself, and
/// nothing behind the payload is touched.
pub proof fn lemma_headers_round_trip(frame: HeadersView, tail: Seq<u8>)
    requires
        frame.valid(),
    ensures
        HeadersFrame::spec_decode(
            header_of::<HeadersFrame>(frame),
            HeadersFrame::spec_payload(frame) + tail,
        ) == (Decoded { outcome: Ok(frame), consumed: HeadersFrame::spec_payload(frame).len() }),
{
    let header = header_of::<HeadersFrame>(frame);
    let payload = HeadersFrame::spec_payload(frame);
    let input = payload + tail;
    lemma_headers_flags(frame);
    let decoded = HeadersFrame::spec_decode(header, input);
    match frame.priority {
        Some(priority) => {
            lemma_record_len(priority);
            lemma_record_round_trip(priority);
            assert(input.subrange(0, PRIORITY_PAYLOAD_LENGTH as int) == priority.record());
            assert(input.subrange(PRIORITY_PAYLOAD_LENGTH as int, payload.len() as int)
                == frame.fragment);
        },
        None => {
            assert(input.subrange(0, payload.len() as int) == frame.fragment);
        },
    }
    assert(decoded.outcome->Ok_0.fragment == frame.fragment);
    assert(decoded.outcome->Ok_0.priority == frame.priority);
}

/// Whatever is decoded under a legal header is valid.
pub proof fn lemma_headers_decoded_valid(header: HeaderView, input: Seq<u8>)
    requires
        header.legal(),
    ensures
        HeadersFrame::spec_decode(header, input).outcome matches Ok(frame) ==> frame.valid(),
{
}

/// A HEADERS frame on stream zero is a protocol error.
pub proof fn lemma_headers_stream_must_not_be_zero(header: HeaderView, input: Seq<u8>)
    requires
        header.stream_id == 0,
    ensures
        HeadersFrame::spec_decode(header, input).outcome == Err::<HeadersView, ErrorKind>(
            ErrorKind::Protocol,
        ),
{
}

/// A decoder never takes more than the payload that the header announces,
/// unless the payload is cut short and the input used up.
pub proof fn lemma_headers_consumed(header: HeaderView, input: Seq<u8>)
    ensures
        HeadersFrame::spec_decode(header, input).consumed <= input.len(),
        input.len() >= header.payload_len ==> HeadersFrame::spec_decode(header, input).consumed
            <= header.payload_len,
{
}

} // verus!
