//! Driver core for a single-channel source-measure unit (SMU) that speaks a
//! line-oriented ASCII command protocol over a serial link.
//!
//! The crate holds the verified core: the protocol codec and command catalog,
//! the framing rules of the transport session, device discovery selection,
//! and the sweep engine that sequences a linear voltage ramp. Serial I/O,
//! command-line handling and output writing live outside the library and
//! exchange plain values (byte lines, candidate lists, samples) with it.

use vstd::prelude::*;

pub mod codec;
pub mod commands;
pub mod decimal;
pub mod discovery;
pub mod errors;
pub mod session;
pub mod sweep;

verus! {

/// USB vendor id of the SMU, fixed by its firmware.
pub const USB_VID: u16 = 1155;

/// USB product id of the SMU, fixed by its firmware.
pub const USB_PID: u16 = 22336;

/// Serial link baud rate.
pub const BAUD_RATE: u32 = 9600;

/// Per-reply read timeout in milliseconds. The device withholds its reply for
/// the full duration of a measurement, so the timeout must exceed worst-case
/// measurement latency.
pub const READ_TIMEOUT_MS: u64 = 1000;

/// Mandatory minimum pause after sending a command, in milliseconds, before
/// another command may be sent.
pub const SETTLE_DELAY_MS: u64 = 50;

} // verus!
