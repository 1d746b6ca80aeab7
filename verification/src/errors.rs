//! The error taxonomy of the library.
//!
//! Every failure is surfaced to the immediate caller; nothing is retried or
//! suppressed inside the core. Rendering an error for a human is the
//! surrounding program's affair, so no formatting lives here.

use vstd::prelude::*;

verus! {

/// An out-of-domain parameter was handed to a command or configuration
/// constructor. The value never reaches the wire.
#[derive(Debug)]
pub struct ConfigurationError;

/// The device cannot safely perform the requested operation.
#[derive(Debug)]
pub struct UnsupportedOperation;

/// A reply line did not match the expected grammar.
#[derive(Debug)]
pub enum ProtocolError {
    /// A fixed mnemonic or separator did not match: carries the expected
    /// bytes and the bytes found in their place (at most as many as were
    /// expected).
    UnexpectedToken { expected: Vec<u8>, found: Vec<u8> },
    /// Bytes remained after the line terminator.
    TrailingData,
    /// A numeric field was not a well-formed numeral, or its value does not
    /// fit the expected width.
    Malformed,
}


/// The connection is no longer usable: a successful reset disconnects the
/// device, and every later operation on the old session is rejected.
#[derive(Debug)]
pub struct ConnectionClosed;

} // verus!
