//! The client's side of opening a connection.

use crate::error::{Error, ErrorKind};
use crate::frame::settings::{SettingsFrame, SettingsView};
use crate::frame::{frame_bytes, WriteFrame};
use vstd::prelude::*;

verus! {

/// The length of the connection preface.
pub const PREFACE_LEN: usize = 24;

/// The connection preface, `PRI * HTTP/2.0\r\n\r\nSM\r\n\r\n`, which a
/// client sends before any frame.
pub open spec fn spec_preface() -> Seq<u8> {
    seq![
        0x50u8, 0x52, 0x49, 0x20, 0x2a, 0x20, 0x48, 0x54, 0x54, 0x50, 0x2f, 0x32, 0x2e, 0x30, 0x0d,
        0x0a, 0x0d, 0x0a, 0x53, 0x4d, 0x0d, 0x0a, 0x0d, 0x0a,
    ]
}

/// The connection preface.
pub fn preface() -> (octets: [u8; 24])
    ensures
        octets@ == spec_preface(),
{
    let octets: [u8; 24] = [
        0x50, 0x52, 0x49, 0x20, 0x2a, 0x20, 0x48, 0x54, 0x54, 0x50, 0x2f, 0x32, 0x2e, 0x30, 0x0d,
        0x0a, 0x0d, 0x0a, 0x53, 0x4d, 0x0d, 0x0a, 0x0d, 0x0a,
    ];
    assert(octets@ == spec_preface());
    octets
}

/// What a client sends to open a connection: the preface, then its first
/// SETTINGS frame.
pub open spec fn spec_opening() -> Seq<u8> {
    spec_preface() + frame_bytes::<SettingsFrame>(
        SettingsView { settings: Seq::empty(), ack: true },
    )
}

/// A client on the connection `conn`.
#[derive(Debug)]
pub struct Client<C> {
    conn: C,
}

impl<C> Client<C> {
    /// The connection.
    pub closed spec fn conn(&self) -> C {
        self.conn
    }
}

impl<C: WriteFrame> Client<C> {
    pub fn new(conn: C) -> (client: Client<C>)
        ensures
            client.conn() == conn,
    {
        Client { conn: conn }
    }

    /// Opens the connection: sends the preface and the first SETTINGS
    /// frame, each in one write. The first write that fails ends it.
    pub fn init(&mut self) -> (r: Result<(), Error>)
        ensures
            r is Ok ==> final(self).conn().written() == old(self).conn().written() + spec_opening(),
            r is Err ==> r->Err_0@.kind == ErrorKind::Internal && (final(self).conn().written()
                == old(self).conn().written() || final(self).conn().written() == old(
                self,
            ).conn().written() + spec_preface()),
            old(self).conn().reliable() ==> r is Ok,
            final(self).conn().reliable() == old(self).conn().reliable(),
    {
        let preface = preface();
        match self.conn.write_all(preface.as_slice()) {
            Ok(()) => {},
            Err(e) => {
                return Err(e);
            },
        }
        // write settings frame
        let frame = SettingsFrame::ack();
        let r = self.conn.write_frame(frame);
        proof {
            let sent = frame_bytes::<SettingsFrame>(
                SettingsView { settings: Seq::empty(), ack: true },
            );
            assert(old(self).conn().written() + spec_preface() + sent == old(
                self,
            ).conn().written() + spec_opening());
        }
        r
    }

    /// The connection, to read what the peer sends.
    pub fn get_mut(&mut self) -> (conn: &mut C)
        ensures
            *conn == old(self).conn(),
            final(self).conn() == *final(conn),
    {
        &mut self.conn
    }

    /// Gives the connection back.
    pub fn into_inner(self) -> (conn: C)
        ensures
            conn == self.conn(),
    {
        self.conn
    }
}

} // verus!
