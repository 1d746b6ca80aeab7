//! The transport session: framing and connection state.
//!
//! The serial link itself lives outside the library. The session hands out
//! the exact bytes to write for each command (the encoded line plus the
//! terminator) and tracks whether the connection is still usable: a
//! successful reset disconnects the device, after which every operation is
//! rejected and the device must be rediscovered. The caller must hold the
//! settle delay (`SETTLE_DELAY_MS`) after each write and read one terminated
//! line per query, within `READ_TIMEOUT_MS`; replies are checked by the
//! decoders in `codec`, which verify the terminator and reject trailing
//! bytes.

use vstd::prelude::*;

use crate::commands::{spec_encode, Command};
use crate::errors::ConnectionClosed;

verus! {

/// The exact bytes that carry a command on the wire: its encoded line with
/// the line terminator appended.
pub open spec fn spec_frame(c: Command) -> Seq<u8> {
    spec_encode(c) + seq![10u8]
}

/// Frames a command for the wire.
pub fn frame_command(c: &Command) -> (r: Vec<u8>)
    ensures
        r@ == spec_frame(*c),
{
    let mut line = c.encode();
    line.push(10);
    assert(line@ =~= spec_frame(*c));
    line
}

/// One open connection's protocol state. Exactly one session stands per
/// physical device; it moves from open to closed on a successful reset and
/// never back.
#[derive(Debug)]
pub struct Session {
    open: bool,
}

impl Session {
    /// The session still owns a usable connection.
    pub closed spec fn is_open(&self) -> bool {
        self.open
    }

    /// A fresh session over a newly opened connection.
    pub fn new() -> (s: Session)
        ensures
            s.is_open(),
    {
        Session { open: true }
    }

    /// Whether the session still owns a usable connection.
    pub fn open(&self) -> (r: bool)
        ensures
            r == self.is_open(),
    {
        self.open
    }

    /// The bytes to write for a command, on an open session: one atomic
    /// write, followed by the mandatory settle delay. A closed session
    /// rejects every command.
    pub fn frame(&self, c: &Command) -> (r: Result<Vec<u8>, ConnectionClosed>)
        ensures
            r is Ok <==> self.is_open(),
            r matches Ok(bytes) ==> bytes@ == spec_frame(*c),
    {
        if self.open {
            Ok(frame_command(c))
        } else {
            Err(ConnectionClosed)
        }
    }

    /// Marks the connection gone after a successful reset: the device
    /// disconnects and must be rediscovered.
    pub fn close(&mut self)
        ensures
            !final(self).is_open(),
    {
        self.open = false;
    }
}

} // verus!
