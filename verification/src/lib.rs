//! Wire-layer framing core of an HTTP/2 endpoint: a sliding byte buffer over
//! a non-blocking source, and the frame codec on top of it.

use crate::frame::settings::{Setting, SettingsFrame};
use vstd::prelude::*;
use vstd::std_specs::cmp::PartialEqSpecImpl;
use vstd::std_specs::convert::FromSpecImpl;

pub mod buffer;
pub mod client;
pub mod connection;
pub mod endian;
pub mod error;
pub mod frame;
pub mod io;
pub mod mock;

verus! {

/// The first number that is no stream identifier: identifiers have 31 bits.
pub const STREAM_ID_LIMIT: u32 = 0x8000_0000;

/// A stream identifier. Zero names the connection as a whole.
#[derive(Clone, Copy, Eq, Debug)]
pub struct StreamId {
    value: u32,
}

impl View for StreamId {
    type V = nat;

    closed spec fn view(&self) -> nat {
        self.value as nat
    }
}

impl StreamId {
    #[verifier::type_invariant]
    spec fn in_range(self) -> bool {
        self.value < STREAM_ID_LIMIT
    }

    /// The identifier in the low 31 bits of `wire`; the reserved high bit is dropped.
    pub fn new(wire: u32) -> (id: StreamId)
        ensures
            id@ == wire as nat % (STREAM_ID_LIMIT as nat),
    {
        assert(wire & 0x7fff_ffff == wire % 0x8000_0000) by (bit_vector);
        StreamId { value: wire & 0x7fff_ffff }
    }

    /// The identifier as a number, below 2^31.
    pub fn value(&self) -> (v: u32)
        ensures
            v == self@,
            v < STREAM_ID_LIMIT,
    {
        proof {
            use_type_invariant(self);
        }
        self.value
    }

    pub fn is_zero(&self) -> (z: bool)
        ensures
            z == (self@ == 0),
    {
        self.value == 0
    }
}

impl PartialEqSpecImpl for StreamId {
    open spec fn obeys_eq_spec() -> bool {
        true
    }

    open spec fn eq_spec(&self, other: &StreamId) -> bool {
        self@ == other@
    }
}

impl PartialEq for StreamId {
    fn eq(&self, other: &StreamId) -> (r: bool) {
        self.value == other.value
    }
}

impl PartialEqSpecImpl<u32> for StreamId {
    open spec fn obeys_eq_spec() -> bool {
        true
    }

    open spec fn eq_spec(&self, other: &u32) -> bool {
        self@ == *other
    }
}

/// A stream identifier equals the number that it holds.
impl PartialEq<u32> for StreamId {
    fn eq(&self, other: &u32) -> (r: bool) {
        self.value == *other
    }
}

impl FromSpecImpl<u32> for StreamId {
    open spec fn obeys_from_spec() -> bool {
        true
    }

    closed spec fn from_spec(wire: u32) -> StreamId {
        StreamId { value: wire & 0x7fff_ffff }
    }
}

impl From<u32> for StreamId {
    fn from(wire: u32) -> (id: StreamId)
        ensures
            id@ == wire as nat % (STREAM_ID_LIMIT as nat),
    {
        let value = wire & 0x7fff_ffff;
        assert(value == wire % 0x8000_0000) by (bit_vector)
            requires
                value == wire & 0x7fff_ffff,
        ;
        StreamId { value }
    }
}

impl FromSpecImpl<StreamId> for u32 {
    open spec fn obeys_from_spec() -> bool {
        true
    }

    closed spec fn from_spec(id: StreamId) -> u32 {
        id.value
    }
}

impl From<StreamId> for u32 {
    fn from(id: StreamId) -> (v: u32)
        ensures
            v == id@,
            v < STREAM_ID_LIMIT,
    {
        id.value()
    }
}

/// The settings of an endpoint, as its peer has announced them.
#[derive(Clone, Copy, PartialEq, Eq, Debug)]
pub struct Settings {
    pub header_table_size: u32,
    pub enable_push: bool,
    pub max_concurrent_streams: Option<u32>,
    pub initial_window_size: i32,
    pub max_frame_size: u32,
    pub max_header_list_size: Option<u32>,
}

impl Settings {
    /// The settings after `setting` has been applied.
    pub open spec fn apply(self, setting: Setting) -> Settings {
        match setting {
            Setting::HeaderTableSize(val) => Settings { header_table_size: val, ..self },
            Setting::EnablePush(val) => Settings { enable_push: val, ..self },
            Setting::MaxConcurrentStreams(val) => Settings {
                max_concurrent_streams: Some(val),
                ..self
            },
            Setting::InitialWindowSize(val) => Settings { initial_window_size: val, ..self },
            Setting::MaxFrameSize(val) => Settings { max_frame_size: val, ..self },
            Setting::MaxHeaderListSize(val) => Settings { max_header_list_size: Some(val), ..self },
        }
    }

    /// The settings after `settings` have been applied, first to last.
    pub open spec fn apply_all(self, settings: Seq<Setting>) -> Settings
        decreases settings.len(),
    {
        if settings.len() == 0 {
            self
        } else {
            self.apply_all(settings.drop_last()).apply(settings.last())
        }
    }

    /// Applies the settings of `frame` in their order, so that the last
    /// value of a parameter stands.
    pub fn update(&mut self, frame: SettingsFrame)
        ensures
            *final(self) == old(self).apply_all(frame@.settings),
    {
        let settings = frame.settings();
        let mut i: usize = 0;
        while i < settings.len()
            invariant
                i <= settings@.len(),
                *self == old(self).apply_all(settings@.take(i as int)),
            decreases settings@.len() - i,
        {
            proof {
                let next = settings@.take(i + 1);
                assert(next.drop_last() == settings@.take(i as int));
                assert(next.last() == settings@[i as int]);
            }
            match settings[i] {
                Setting::HeaderTableSize(val) => self.header_table_size = val,
                Setting::EnablePush(val) => self.enable_push = val,
                Setting::MaxConcurrentStreams(val) => self.max_concurrent_streams = Some(val),
                Setting::InitialWindowSize(val) => self.initial_window_size = val,
                Setting::MaxFrameSize(val) => self.max_frame_size = val,
                Setting::MaxHeaderListSize(val) => self.max_header_list_size = Some(val),
            }
            i = i + 1;
        }
        assert(settings@.take(settings@.len() as int) == settings@);
    }
}

impl Default for Settings {
    /// The settings of a connection before any SETTINGS frame has come.
    fn default() -> (settings: Settings)
        ensures
            settings == (Settings {
                header_table_size: 4096,
                enable_push: true,
                max_concurrent_streams: None,
                initial_window_size: 65535,
                max_frame_size: 16384,
                max_header_list_size: None,
            }),
    {
        Settings {
            header_table_size: 4096,
            enable_push: true,
            max_concurrent_streams: None,
            initial_window_size: 65535,
            max_frame_size: 16384,
            max_header_list_size: None,
        }
    }
}

/// A flow-control window. It can be negative after the peer has made the
/// initial window smaller.
#[derive(Clone, Copy, PartialEq, Eq, Debug)]
pub struct WindowSize {
    size: i32,
}

impl View for WindowSize {
    type V = int;

    closed spec fn view(&self) -> int {
        self.size as int
    }
}

impl WindowSize {
    /// How many octets may be sent: none while the window is negative.
    pub fn available(&self) -> (n: usize)
        ensures
            n == if self@ < 0 {
                0
            } else {
                self@
            },
    {
        if self.size < 0 {
            return 0;
        }
        self.size as usize
    }

    pub fn set(&mut self, n: i32)
        ensures
            final(self)@ == n,
    {
        self.size = n;
    }
}

impl Default for WindowSize {
    fn default() -> (window: WindowSize)
        ensures
            window@ == 65535,
    {
        WindowSize { size: 65535 }
    }
}

} // verus!
