//! The SETTINGS frame: a list of identifier and value pairs, six octets each.

use crate::endian::{
    be_bytes, lemma_be_bytes_len, lemma_limits, lemma_uint_be_bound, lemma_uint_of_be_bytes,
    read_u16, read_u32, uint_be, write_u16, write_u32,
};
use crate::error::{Error, ErrorKind};
use crate::frame::{
    agrees, flag_set, header_of, Decoded, Flags, Frame, FrameHeader, FrameType, HeaderView,
    FLAG_ACK, MAX_PAYLOAD_LEN,
};
use crate::io::{append, ByteReader};
use crate::StreamId;
use vstd::prelude::*;
use vstd::slice::slice_subrange;
use vstd::std_specs::convert::FromSpecImpl;

verus! {

pub const TYPE_SETTINGS: FrameType = 0x4;

/// The largest flow-control window: 2^31 - 1 octets.
pub const MAX_FLOW_CONTROL_WINDOW_SIZE: u32 = 0x7fff_ffff;

/// The smallest value of MAX_FRAME_SIZE: 2^14 octets.
pub const MIN_FRAME_SIZE: u32 = 16384;

/// The largest value of MAX_FRAME_SIZE: 2^24 - 1 octets.
pub const MAX_FRAME_SIZE: u32 = 16777215;

/// Each setting is a two-octet identifier and a four-octet value.
pub const SETTING_LENGTH: usize = 6;

/// A settings parameter.
#[derive(Debug, Clone, Copy, PartialEq, Eq, Structural)]
pub enum Setting {
    HeaderTableSize(u32),
    EnablePush(bool),
    MaxConcurrentStreams(u32),
    InitialWindowSize(i32),
    MaxFrameSize(u32),
    MaxHeaderListSize(u32),
}

impl Setting {
    /// The identifier on the wire.
    pub open spec fn spec_id(self) -> nat {
        match self {
            Setting::HeaderTableSize(_) => 0x1,
            Setting::EnablePush(_) => 0x2,
            Setting::MaxConcurrentStreams(_) => 0x3,
            Setting::InitialWindowSize(_) => 0x4,
            Setting::MaxFrameSize(_) => 0x5,
            Setting::MaxHeaderListSize(_) => 0x6,
        }
    }

    /// The value on the wire, as an unsigned 32-bit number. A negative
    /// window size goes out in two's complement.
    pub open spec fn spec_value(self) -> nat {
        match self {
            Setting::HeaderTableSize(v) => v as nat,
            Setting::EnablePush(on) => if on {
                1
            } else {
                0
            },
            Setting::MaxConcurrentStreams(v) => v as nat,
            Setting::InitialWindowSize(v) => if v >= 0 {
                v as nat
            } else {
                (v + 0x1_0000_0000) as nat
            },
            Setting::MaxFrameSize(v) => v as nat,
            Setting::MaxHeaderListSize(v) => v as nat,
        }
    }

    /// Whether a decoder takes the setting: the window size is not
    /// negative, the frame size is between 2^14 and 2^24 - 1.
    pub open spec fn valid(self) -> bool {
        match self {
            Setting::InitialWindowSize(v) => v >= 0,
            Setting::MaxFrameSize(v) => MIN_FRAME_SIZE <= v <= MAX_FRAME_SIZE,
            _ => true,
        }
    }

    /// The six octets of the setting.
    pub open spec fn to_bytes(self) -> Seq<u8> {
        be_bytes(self.spec_id(), 2) + be_bytes(self.spec_value(), 4)
    }

    pub fn id(&self) -> (id: u16)
        ensures
            id == self.spec_id(),
    {
        match self {
            Setting::HeaderTableSize(_) => 0x1,
            Setting::EnablePush(_) => 0x2,
            Setting::MaxConcurrentStreams(_) => 0x3,
            Setting::InitialWindowSize(_) => 0x4,
            Setting::MaxFrameSize(_) => 0x5,
            Setting::MaxHeaderListSize(_) => 0x6,
        }
    }

    pub fn value(&self) -> (value: u32)
        ensures
            value == self.spec_value(),
    {
        match *self {
            Setting::HeaderTableSize(v) => v,
            Setting::EnablePush(on) => if on {
                1
            } else {
                0
            },
            Setting::MaxConcurrentStreams(v) => v,
            Setting::InitialWindowSize(v) => if v >= 0 {
                v as u32
            } else {
                ((v as i64) + 0x1_0000_0000) as u32
            },
            Setting::MaxFrameSize(v) => v,
            Setting::MaxHeaderListSize(v) => v,
        }
    }

    /// Appends the six octets of the setting to `writer`.
    pub fn write(&self, writer: &mut Vec<u8>)
        ensures
            final(writer)@ == old(writer)@ + self.to_bytes(),
    {
        let mut id_buf = [0u8;2];
        write_u16(&mut id_buf, self.id());
        let mut val_buf = [0u8;4];
        write_u32(&mut val_buf, self.value());
        proof {
            lemma_be_bytes_len(self.spec_id(), 2);
            lemma_be_bytes_len(self.spec_value(), 4);
            assert(id_buf@ == be_bytes(self.spec_id(), 2));
            assert(val_buf@ == be_bytes(self.spec_value(), 4));
        }
        append(writer, id_buf.as_slice());
        append(writer, val_buf.as_slice());
        assert(writer@ == old(writer)@ + self.to_bytes());
    }
}

/// What an identifier and a value mean: a setting, nothing where the
/// identifier is unknown, or the kind of the error where the value is out
/// of range.
pub open spec fn spec_parse_setting(id: nat, value: nat) -> Result<Option<Setting>, ErrorKind> {
    if id == 0x1 {
        Ok(Some(Setting::HeaderTableSize(value as u32)))
    } else if id == 0x2 {
        if value == 0 {
            Ok(Some(Setting::EnablePush(false)))
        } else if value == 1 {
            Ok(Some(Setting::EnablePush(true)))
        } else {
            Err(ErrorKind::Protocol)
        }
    } else if id == 0x3 {
        Ok(Some(Setting::MaxConcurrentStreams(value as u32)))
    } else if id == 0x4 {
        if value > MAX_FLOW_CONTROL_WINDOW_SIZE {
            Err(ErrorKind::FlowControl)
        } else {
            Ok(Some(Setting::InitialWindowSize(value as i32)))
        }
    } else if id == 0x5 {
        if value < MIN_FRAME_SIZE || value > MAX_FRAME_SIZE {
            Err(ErrorKind::Protocol)
        } else {
            Ok(Some(Setting::MaxFrameSize(value as u32)))
        }
    } else if id == 0x6 {
        Ok(Some(Setting::MaxHeaderListSize(value as u32)))
    } else {
        Ok(None)
    }
}

/// The setting in the six octets of `pair`.
pub open spec fn spec_parse_pair(pair: Seq<u8>) -> Result<Option<Setting>, ErrorKind> {
    spec_parse_setting(uint_be(pair.subrange(0, 2)), uint_be(pair.subrange(2, 6)))
}

/// Interprets one pair. A setting with an unknown identifier is dropped.
pub fn parse_setting(id: u16, value: u32) -> (r: Result<Option<Setting>, Error>)
    ensures
        match (r, spec_parse_setting(id as nat, value as nat)) {
            (Ok(setting), Ok(expected)) => setting == expected,
            (Err(e), Err(kind)) => e@.kind == kind,
            _ => false,
        },
{
    // parse according to rfc 6.5.2
    match id {
        0x1 => Ok(Some(Setting::HeaderTableSize(value))),
        0x2 => match value {
            0 => Ok(Some(Setting::EnablePush(false))),
            1 => Ok(Some(Setting::EnablePush(true))),
            _ => Err(
                Error::new(
                    ErrorKind::Protocol,
                    "Invalid Value for enable push setting in settings frame",
                ),
            ),
        },
        0x3 => Ok(Some(Setting::MaxConcurrentStreams(value))),
        0x4 => {
            if value > MAX_FLOW_CONTROL_WINDOW_SIZE {
                Err(
                    Error::new(
                        ErrorKind::FlowControl,
                        "Initial window size must be lower than 2^31-1 octets in settings frame",
                    ),
                )
            } else {
                Ok(Some(Setting::InitialWindowSize(value as i32)))
            }
        },
        0x5 => {
            if value < MIN_FRAME_SIZE || value > MAX_FRAME_SIZE {
                Err(
                    Error::new(
                        ErrorKind::Protocol,
                        "Max frame size must be between 2^14 and 2^24-1 octets in settings frame",
                    ),
                )
            } else {
                Ok(Some(Setting::MaxFrameSize(value)))
            }
        },
        0x6 => Ok(Some(Setting::MaxHeaderListSize(value))),
        _ => Ok(None),
    }
}

/// Reading `count` pairs from the front of `input`, one after the other.
/// The first pair that is missing or refused ends the reading: a missing
/// pair uses up the input, a refused one is the last that is taken.
pub open spec fn spec_read_pairs(input: Seq<u8>, count: nat) -> Decoded<Seq<Setting>>
    decreases count,
{
    if count == 0 {
        Decoded { outcome: Ok(Seq::empty()), consumed: 0 }
    } else {
        let front = spec_read_pairs(input, (count - 1) as nat);
        match front.outcome {
            Err(_) => front,
            Ok(settings) => {
                if input.len() < front.consumed + SETTING_LENGTH {
                    Decoded { outcome: Err(ErrorKind::Internal), consumed: input.len() }
                } else {
                    let end = (front.consumed + SETTING_LENGTH) as nat;
                    match spec_parse_pair(input.subrange(front.consumed as int, end as int)) {
                        Err(kind) => Decoded { outcome: Err(kind), consumed: end },
                        Ok(Some(setting)) => Decoded {
                            outcome: Ok(settings.push(setting)),
                            consumed: end,
                        },
                        Ok(None) => Decoded { outcome: Ok(settings), consumed: end },
                    }
                }
            },
        }
    }
}

/// The octets of `settings`, in order.
pub open spec fn settings_bytes(settings: Seq<Setting>) -> Seq<u8>
    decreases settings.len(),
{
    if settings.len() == 0 {
        Seq::empty()
    } else {
        settings_bytes(settings.drop_last()) + settings.last().to_bytes()
    }
}

/// Reading never takes more than the input holds, and `count` pairs that
/// are all there and all accepted take six octets each.
pub proof fn lemma_read_pairs_consumed(input: Seq<u8>, count: nat)
    ensures
        spec_read_pairs(input, count).consumed <= input.len(),
        spec_read_pairs(input, count).outcome is Ok ==> spec_read_pairs(input, count).consumed
            == SETTING_LENGTH * count,
        input.len() >= SETTING_LENGTH * count ==> spec_read_pairs(input, count).consumed
            <= SETTING_LENGTH * count,
    decreases count,
{
    if count > 0 {
        lemma_read_pairs_consumed(input, (count - 1) as nat);
    }
}

/// No more settings are read than pairs are asked for.
pub proof fn lemma_read_pairs_len(input: Seq<u8>, count: nat)
    ensures
        spec_read_pairs(input, count).outcome matches Ok(settings) ==> settings.len() <= count,
    decreases count,
{
    if count > 0 {
        lemma_read_pairs_len(input, (count - 1) as nat);
    }
}

/// Once a pair has ended the reading, asking for more pairs changes nothing.
pub proof fn lemma_read_pairs_stops(input: Seq<u8>, count: nat, more: nat)
    requires
        count <= more,
        spec_read_pairs(input, count).outcome is Err,
    ensures
        spec_read_pairs(input, more) == spec_read_pairs(input, count),
    decreases more,
{
    if count < more {
        lemma_read_pairs_stops(input, count, (more - 1) as nat);
    }
}

pub proof fn lemma_settings_bytes_len(settings: Seq<Setting>)
    ensures
        settings_bytes(settings).len() == SETTING_LENGTH * settings.len(),
    decreases settings.len(),
{
    if settings.len() > 0 {
        lemma_settings_bytes_len(settings.drop_last());
        lemma_be_bytes_len(settings.last().spec_id(), 2);
        lemma_be_bytes_len(settings.last().spec_value(), 4);
    }
}

/// What a SETTINGS payload of any length holds: its length has to be a
/// multiple of six, and then its pairs decide.
pub open spec fn spec_parse_payload(payload: Seq<u8>) -> Result<Seq<Setting>, ErrorKind> {
    if payload.len() % SETTING_LENGTH as nat != 0 {
        Err(ErrorKind::FrameSize)
    } else {
        spec_read_pairs(payload, payload.len() / SETTING_LENGTH as nat).outcome
    }
}

/// Parses a whole SETTINGS payload.
pub fn parse_payload(payload: &[u8]) -> (r: Result<Vec<Setting>, Error>)
    ensures
        agrees(r, spec_parse_payload(payload@)),
{
    if payload.len() % SETTING_LENGTH != 0 {
        return Err(
            Error::new(
                ErrorKind::FrameSize,
                "Settings Frame payload length must be multiple of 6",
            ),
        );
    }
    let n = payload.len() / SETTING_LENGTH;
    let mut settings: Vec<Setting> = Vec::with_capacity(n);
    let mut p: usize = 0;
    while p < n
        invariant
            p <= n,
            SETTING_LENGTH == 6,
            n * SETTING_LENGTH == payload@.len(),
            payload@.len() <= usize::MAX,
            spec_read_pairs(payload@, p as nat) == (Decoded {
                outcome: Ok(settings@),
                consumed: (SETTING_LENGTH * p) as nat,
            }),
        decreases n - p,
    {
        let at = p * SETTING_LENGTH;
        let id = read_u16(slice_subrange(payload, at, payload.len()));
        let value = read_u32(slice_subrange(payload, at + 2, payload.len()));
        proof {
            let pair = payload@.subrange(at as int, at + SETTING_LENGTH);
            assert(payload@.subrange(at as int, payload@.len() as int).take(2) == pair.subrange(
                0,
                2,
            ));
            assert(payload@.subrange(at + 2, payload@.len() as int).take(4) == pair.subrange(
                2,
                6,
            ));
        }
        match parse_setting(id, value) {
            Ok(Some(setting)) => {
                settings.push(setting);
            },
            Ok(None) => {},
            Err(e) => {
                proof {
                    lemma_read_pairs_stops(payload@, (p + 1) as nat, n as nat);
                }
                return Err(e);
            },
        }
        p = p + 1;
    }
    Ok(settings)
}

/// What a SETTINGS frame holds.
pub struct SettingsView {
    pub settings: Seq<Setting>,
    pub ack: bool,
}

impl SettingsView {
    /// What a decoder can return: valid settings, and none in an
    /// acknowledgement.
    pub open spec fn valid(self) -> bool {
        &&& self.ack ==> self.settings.len() == 0
        &&& forall|i: int| 0 <= i < self.settings.len() ==> (#[trigger] self.settings[i]).valid()
    }
}

/// A SETTINGS frame: the settings in the order of the wire, or an
/// acknowledgement.
#[derive(Debug, Clone, PartialEq)]
pub struct SettingsFrame {
    settings: Vec<Setting>,
    ack: bool,
}

impl View for SettingsFrame {
    type V = SettingsView;

    closed spec fn view(&self) -> SettingsView {
        SettingsView { settings: self.settings@, ack: self.ack }
    }
}

impl Default for SettingsFrame {
    /// The empty frame that acknowledges nothing.
    fn default() -> (frame: SettingsFrame)
        ensures
            frame@ == (SettingsView { settings: Seq::empty(), ack: false }),
    {
        SettingsFrame { settings: Vec::new(), ack: false }
    }
}

/// The header that `from_raw` is given in pieces.
pub open spec fn raw_header(stream_id: u32, flags: u8, payload: Seq<u8>) -> HeaderView {
    HeaderView {
        payload_len: payload.len(),
        frame_type: TYPE_SETTINGS,
        flags,
        stream_id: stream_id as nat,
    }
}

impl SettingsFrame {
    /// Decodes a SETTINGS frame from the fields of its header and its whole
    /// payload.
    pub fn from_raw(stream_id: u32, flags: u8, payload: &[u8]) -> (r: Result<SettingsFrame, Error>)
        ensures
            agrees(r, Self::spec_decode(raw_header(stream_id, flags, payload@), payload@).outcome),
    {
        if stream_id != 0 {
            return Err(
                Error::new(
                    ErrorKind::Protocol,
                    "The stream identifier for a settings frame must be zero",
                ),
            );
        }
        let mut frame = SettingsFrame::default();
        if Flags::from_bits(flags).contains(FLAG_ACK) {
            frame.ack = true;
            if !payload.is_empty() {
                return Err(
                    Error::new(ErrorKind::FrameSize, "Settings Frame with Ack Flag must be empty"),
                );
            }
        }
        if !payload.is_empty() {
            frame.settings = match parse_payload(payload) {
                Ok(settings) => settings,
                Err(e) => {
                    return Err(e);
                },
            };
        }
        Ok(frame)
    }

    /// Decodes the payload of a SETTINGS frame from `reader`.
    pub fn read<R: ByteReader>(header: FrameHeader, reader: &mut R) -> (r: Result<
        SettingsFrame,
        Error,
    >)
        ensures
            agrees(r, Self::spec_decode(header@, old(reader).unread()).outcome),
            final(reader).unread() == old(reader).unread().skip(
                Self::spec_decode(header@, old(reader).unread()).consumed as int,
            ),
    {
        let ghost input = reader.unread();
        assert(input.skip(0) == input);
        if !header.stream_id().is_zero() {
            return Err(
                Error::new(
                    ErrorKind::Protocol,
                    "The stream identifier for a settings frame must be zero",
                ),
            );
        }
        let mut frame = SettingsFrame::default();
        if header.flags().contains(FLAG_ACK) {
            frame.ack = true;
            if header.payload_len() != 0 {
                return Err(
                    Error::new(ErrorKind::FrameSize, "Settings Frame with Ack Flag must be empty"),
                );
            }
        }
        if header.payload_len() % SETTING_LENGTH != 0 {
            return Err(
                Error::new(
                    ErrorKind::FrameSize,
                    "Settings Frame payload length must be multiple of 6",
                ),
            );
        }
        let count = header.payload_len() / SETTING_LENGTH;
        let mut i: usize = 0;
        while i < count
            invariant
                i <= count,
                SETTING_LENGTH == 6,
                input == old(reader).unread(),
                header@.stream_id == 0,
                header@.payload_len == SETTING_LENGTH * count,
                flag_set(header@.flags, FLAG_ACK) ==> header@.payload_len == 0,
                count <= MAX_PAYLOAD_LEN,
                frame.ack == flag_set(header@.flags, FLAG_ACK),
                spec_read_pairs(input, i as nat) == (Decoded {
                    outcome: Ok(frame.settings@),
                    consumed: (SETTING_LENGTH * i) as nat,
                }),
                SETTING_LENGTH * i <= input.len(),
                reader.unread() == input.skip(SETTING_LENGTH * i),
            decreases count - i,
        {
            let ghost before = reader.unread();
            match frame.read_setting(reader) {
                Ok(()) => {},
                Err(e) => {
                    proof {
                        if before.len() >= SETTING_LENGTH {
                            assert(before.skip(SETTING_LENGTH as int) == input.skip(
                                SETTING_LENGTH * i + SETTING_LENGTH,
                            ));
                            assert(before.take(SETTING_LENGTH as int) == input.subrange(
                                SETTING_LENGTH * i,
                                SETTING_LENGTH * i + SETTING_LENGTH,
                            ));
                        } else {
                            assert(input.skip(input.len() as int) == Seq::<u8>::empty());
                        }
                        lemma_read_pairs_stops(input, (i + 1) as nat, count as nat);
                    }
                    return Err(e);
                },
            }
            proof {
                assert(before.skip(SETTING_LENGTH as int) == input.skip(
                    SETTING_LENGTH * i + SETTING_LENGTH,
                ));
                assert(before.take(SETTING_LENGTH as int) == input.subrange(
                    SETTING_LENGTH * i,
                    SETTING_LENGTH * i + SETTING_LENGTH,
                ));
            }
            i = i + 1;
        }
        Ok(frame)
    }

    /// The frame that acknowledges the peer's settings.
    pub fn ack() -> (frame: SettingsFrame)
        ensures
            frame@ == (SettingsView { settings: Seq::empty(), ack: true }),
    {
        Self::default().set_ack()
    }

    pub fn set_ack(self) -> (frame: SettingsFrame)
        ensures
            frame@ == (SettingsView { settings: self@.settings, ack: true }),
    {
        let mut frame = self;
        frame.ack = true;
        frame
    }

    /// Adds `set` behind the settings that are there.
    pub fn add_setting(&mut self, set: Setting)
        ensures
            final(self)@ == (SettingsView {
                settings: old(self)@.settings.push(set),
                ack: old(self)@.ack,
            }),
    {
        self.settings.push(set);
    }

    pub fn is_ack(&self) -> (ack: bool)
        ensures
            ack == self@.ack,
    {
        self.ack
    }

    /// The settings, in the order of the wire.
    pub fn settings(self) -> (settings: Vec<Setting>)
        ensures
            settings@ == self@.settings,
    {
        self.settings
    }

    /// Reads one setting from `reader` and keeps it, unless its identifier
    /// is unknown. A reader that holds less than six octets is emptied.
    pub fn read_setting<R: ByteReader>(&mut self, reader: &mut R) -> (r: Result<(), Error>)
        ensures
            final(self)@.ack == old(self)@.ack,
            old(reader).unread().len() < SETTING_LENGTH ==> {
                &&& r is Err
                &&& r->Err_0@.kind == ErrorKind::Internal
                &&& final(reader).unread() == Seq::<u8>::empty()
                &&& final(self)@ == old(self)@
            },
            old(reader).unread().len() >= SETTING_LENGTH ==> {
                &&& final(reader).unread() == old(reader).unread().skip(SETTING_LENGTH as int)
                &&& match spec_parse_pair(old(reader).unread().take(SETTING_LENGTH as int)) {
                    Err(kind) => r is Err && r->Err_0@.kind == kind && final(self)@ == old(self)@,
                    Ok(Some(setting)) => r is Ok && final(self)@.settings == old(
                        self,
                    )@.settings.push(setting),
                    Ok(None) => r is Ok && final(self)@ == old(self)@,
                }
            },
    {
        let buf = match reader.read_exact(SETTING_LENGTH) {
            Ok(buf) => buf,
            Err(e) => {
                return Err(e);
            },
        };
        let id = read_u16(buf.as_slice());
        let value = read_u32(slice_subrange(buf.as_slice(), 2, 6));
        proof {
            assert(buf@.take(2) == buf@.subrange(0, 2));
            assert(buf@.subrange(2, 6).take(4) == buf@.subrange(2, 6));
        }
        match parse_setting(id, value) {
            Ok(Some(setting)) => {
                self.settings.push(setting);
                Ok(())
            },
            Ok(None) => Ok(()),  // discard unknown settings
            Err(e) => Err(e),
        }
    }

    /// Appends the settings to `writer`, six octets each, in order.
    pub fn write_payload(&self, writer: &mut Vec<u8>)
        ensures
            final(writer)@ == old(writer)@ + settings_bytes(self@.settings),
    {
        let mut i: usize = 0;
        while i < self.settings.len()
            invariant
                i <= self.settings@.len(),
                writer@ == old(writer)@ + settings_bytes(self.settings@.take(i as int)),
            decreases self.settings@.len() - i,
        {
            proof {
                let next = self.settings@.take(i + 1);
                assert(next.drop_last() == self.settings@.take(i as int));
                assert(next.last() == self.settings@[i as int]);
            }
            self.settings[i].write(writer);
            i = i + 1;
        }
        assert(self.settings@.take(self.settings@.len() as int) == self.settings@);
    }

    /// The header that goes in front of the frame. The settings have to
    /// fit in a payload of 24 bits.
    pub fn header(&self) -> (h: FrameHeader)
        requires
            settings_bytes(self@.settings).len() <= MAX_PAYLOAD_LEN,
        ensures
            h@ == header_of::<SettingsFrame>(self@),
    {
        FrameHeader::new(self)
    }
}

impl Frame for SettingsFrame {
    open spec fn spec_decode(header: HeaderView, input: Seq<u8>) -> Decoded<SettingsView> {
        if header.stream_id != 0 {
            Decoded { outcome: Err(ErrorKind::Protocol), consumed: 0 }
        } else if flag_set(header.flags, FLAG_ACK) && header.payload_len != 0 {
            Decoded { outcome: Err(ErrorKind::FrameSize), consumed: 0 }
        } else if header.payload_len % SETTING_LENGTH as nat != 0 {
            Decoded { outcome: Err(ErrorKind::FrameSize), consumed: 0 }
        } else {
            let pairs = spec_read_pairs(input, header.payload_len / SETTING_LENGTH as nat);
            Decoded {
                outcome: match pairs.outcome {
                    Ok(settings) => Ok(
                        SettingsView { settings, ack: flag_set(header.flags, FLAG_ACK) },
                    ),
                    Err(kind) => Err(kind),
                },
                consumed: pairs.consumed,
            }
        }
    }

    open spec fn spec_payload(frame: SettingsView) -> Seq<u8> {
        settings_bytes(frame.settings)
    }

    open spec fn spec_frame_type(frame: SettingsView) -> FrameType {
        TYPE_SETTINGS
    }

    open spec fn spec_flags(frame: SettingsView) -> u8 {
        if frame.ack {
            FLAG_ACK
        } else {
            0
        }
    }

    open spec fn spec_stream_id(frame: SettingsView) -> nat {
        0
    }

    fn from_reader<R: ByteReader>(header: FrameHeader, reader: &mut R) -> (r: Result<Self, Error>) {
        Self::read(header, reader)
    }

    fn into_writer(self, writer: &mut Vec<u8>) {
        self.write_payload(writer)
    }

    fn payload_len(&self) -> (n: usize) {
        proof {
            lemma_settings_bytes_len(self@.settings);
        }
        SETTING_LENGTH * self.settings.len()
    }

    fn frame_type(&self) -> (t: FrameType) {
        TYPE_SETTINGS
    }

    fn flags(&self) -> (f: Flags) {
        if self.ack {
            Flags::from_bits(FLAG_ACK)
        } else {
            Flags::empty()
        }
    }

    fn stream_id(&self) -> (id: StreamId) {
        // stream identifier for a settings frame must be zero
        StreamId::new(0)
    }
}

impl FromSpecImpl<SettingsFrame> for Vec<u8> {
    open spec fn obeys_from_spec() -> bool {
        false
    }

    open spec fn from_spec(frame: SettingsFrame) -> Vec<u8> {
        choose|payload: Vec<u8>| payload@ == settings_bytes(frame@.settings)
    }
}

/// The payload of a SETTINGS frame, as a vector of its own.
impl From<SettingsFrame> for Vec<u8> {
    fn from(frame: SettingsFrame) -> (payload: Vec<u8>)
        ensures
            payload@ == settings_bytes(frame@.settings),
    {
        let mut payload: Vec<u8> = Vec::new();
        frame.write_payload(&mut payload);
        payload
    }
}

/// A valid setting is written in six octets, and these are read as the
/// same setting.
pub proof fn lemma_setting_round_trip(setting: Setting)
    requires
        setting.valid(),
    ensures
        setting.to_bytes().len() == SETTING_LENGTH,
        spec_parse_pair(setting.to_bytes()) == Ok::<Option<Setting>, ErrorKind>(Some(setting)),
{
    let bytes = setting.to_bytes();
    lemma_be_bytes_len(setting.spec_id(), 2);
    lemma_be_bytes_len(setting.spec_value(), 4);
    lemma_limits();
    lemma_uint_of_be_bytes(setting.spec_id(), 2);
    lemma_uint_of_be_bytes(setting.spec_value(), 4);
    assert(bytes.subrange(0, 2) == be_bytes(setting.spec_id(), 2));
    assert(bytes.subrange(2, 6) == be_bytes(setting.spec_value(), 4));
}

/// Every setting that is read is valid.
pub proof fn lemma_parsed_setting_valid(pair: Seq<u8>)
    requires
        pair.len() == SETTING_LENGTH,
    ensures
        spec_parse_pair(pair) matches Ok(Some(setting)) ==> setting.valid(),
{
    lemma_uint_be_bound(pair.subrange(2, 6));
    lemma_limits();
}

/// Valid settings are read back from their octets, whatever follows them.
pub proof fn lemma_pairs_round_trip(settings: Seq<Setting>, tail: Seq<u8>)
    requires
        forall|i: int| 0 <= i < settings.len() ==> (#[trigger] settings[i]).valid(),
    ensures
        spec_read_pairs(settings_bytes(settings) + tail, settings.len()) == (Decoded {
            outcome: Ok(settings),
            consumed: (SETTING_LENGTH * settings.len()) as nat,
        }),
    decreases settings.len(),
{
    if settings.len() > 0 {
        let front = settings.drop_last();
        let last = settings.last();
        let input = settings_bytes(settings) + tail;
        lemma_pairs_round_trip(front, last.to_bytes() + tail);
        assert(settings_bytes(front) + (last.to_bytes() + tail) == input);
        lemma_settings_bytes_len(front);
        lemma_setting_round_trip(last);
        let start = SETTING_LENGTH * front.len();
        assert(input.subrange(start, start + SETTING_LENGTH) == last.to_bytes());
        assert(front.push(last) == settings);
    } else {
        assert(settings == Seq::<Setting>::empty());
    }
}

/// Settings that are read are all valid.
pub proof fn lemma_read_pairs_valid(input: Seq<u8>, count: nat)
    ensures
        spec_read_pairs(input, count).outcome matches Ok(settings) ==> forall|i: int|
            0 <= i < settings.len() ==> (#[trigger] settings[i]).valid(),
    decreases count,
{
    if count > 0 {
        let front = spec_read_pairs(input, (count - 1) as nat);
        lemma_read_pairs_valid(input, (count - 1) as nat);
        lemma_read_pairs_consumed(input, (count - 1) as nat);
        if front.outcome is Ok && input.len() >= front.consumed + SETTING_LENGTH {
            lemma_parsed_setting_valid(
                input.subrange(front.consumed as int, front.consumed + SETTING_LENGTH),
            );
        }
    }
}

/// A pair that is refused fails the frame with its own kind of error, when
/// all pairs before it are accepted.
pub proof fn lemma_refused_pair_fails(input: Seq<u8>, index: nat, count: nat, kind: ErrorKind)
    requires
        index < count,
        SETTING_LENGTH * (index + 1) <= input.len(),
        spec_read_pairs(input, index).outcome is Ok,
        spec_parse_pair(
            input.subrange(SETTING_LENGTH * index, SETTING_LENGTH * index + SETTING_LENGTH),
        ) == Err::<Option<Setting>, ErrorKind>(kind),
    ensures
        spec_read_pairs(input, count).outcome == Err::<Seq<Setting>, ErrorKind>(kind),
{
    lemma_read_pairs_consumed(input, index);
    lemma_read_pairs_stops(input, index + 1, count);
}

/// A valid frame is decoded from its own header and payload as itself, and
/// nothing behind the payload is touched.
pub proof fn lemma_settings_round_trip(frame: SettingsView, tail: Seq<u8>)
    requires
        frame.valid(),
    ensures
        SettingsFrame::spec_decode(
            header_of::<SettingsFrame>(frame),
            SettingsFrame::spec_payload(frame) + tail,
        ) == (Decoded { outcome: Ok(frame), consumed: SettingsFrame::spec_payload(frame).len() }),
{
    lemma_settings_bytes_len(frame.settings);
    lemma_pairs_round_trip(frame.settings, tail);
    assert(flag_set(FLAG_ACK, FLAG_ACK)) by (bit_vector);
    assert(!flag_set(0, FLAG_ACK)) by (bit_vector);
}

/// Whatever is decoded is valid.
pub proof fn lemma_settings_decoded_valid(header: HeaderView, input: Seq<u8>)
    ensures
        SettingsFrame::spec_decode(header, input).outcome matches Ok(frame) ==> frame.valid(),
{
    lemma_read_pairs_valid(input, header.payload_len / SETTING_LENGTH as nat);
}

/// A SETTINGS frame on a stream other than zero is a protocol error.
pub proof fn lemma_settings_stream_must_be_zero(header: HeaderView, input: Seq<u8>)
    requires
        header.stream_id != 0,
    ensures
        SettingsFrame::spec_decode(header, input).outcome == Err::<SettingsView, ErrorKind>(
            ErrorKind::Protocol,
        ),
{
}

/// An acknowledgement with a payload is a frame size error.
pub proof fn lemma_settings_ack_must_be_empty(header: HeaderView, input: Seq<u8>)
    requires
        header.stream_id == 0,
        flag_set(header.flags, FLAG_ACK),
        header.payload_len != 0,
    ensures
        SettingsFrame::spec_decode(header, input).outcome == Err::<SettingsView, ErrorKind>(
            ErrorKind::FrameSize,
        ),
{
}

/// A payload whose length is no multiple of six is a frame size error.
pub proof fn lemma_settings_length_multiple_of_six(header: HeaderView, input: Seq<u8>)
    requires
        header.stream_id == 0,
        header.payload_len % 6 != 0,
    ensures
        SettingsFrame::spec_decode(header, input).outcome == Err::<SettingsView, ErrorKind>(
            ErrorKind::FrameSize,
        ),
{
}

/// ENABLE_PUSH takes the values 0 and 1; any other is a protocol error.
pub proof fn lemma_enable_push_is_boolean(value: nat)
    ensures
        spec_parse_setting(0x2, value) is Ok <==> value <= 1,
        value > 1 ==> spec_parse_setting(0x2, value) == Err::<Option<Setting>, ErrorKind>(
            ErrorKind::Protocol,
        ),
{
}

/// INITIAL_WINDOW_SIZE above 2^31 - 1 is a flow control error.
pub proof fn lemma_initial_window_size_limit(value: nat)
    ensures
        spec_parse_setting(0x4, value) is Ok <==> value <= 0x7fff_ffff,
        value > 0x7fff_ffff ==> spec_parse_setting(0x4, value) == Err::<
            Option<Setting>,
            ErrorKind,
        >(ErrorKind::FlowControl),
{
}

/// MAX_FRAME_SIZE below 2^14 or above 2^24 - 1 is a protocol error.
pub proof fn lemma_max_frame_size_range(value: nat)
    ensures
        spec_parse_setting(0x5, value) is Ok <==> 16384 <= value <= 16777215,
        value < 16384 || value > 16777215 ==> spec_parse_setting(0x5, value) == Err::<
            Option<Setting>,
            ErrorKind,
        >(ErrorKind::Protocol),
{
}

} // verus!
