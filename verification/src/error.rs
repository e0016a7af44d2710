//! The error taxonomy surfaced by the protocol logic.

use vstd::prelude::*;

verus! {

/// Everything that can go wrong inside the protocol logic.
///
/// I/O failures are not represented here: the library performs no I/O, so
/// the shell that owns the connection reports those on its own.
#[derive(Clone, Copy, Debug, PartialEq, Eq, Structural)]
pub enum ZmtpError {
    /// Invalid tag byte, truncated length, or a body shorter than the
    /// declared length.
    MalformedFrame,
    /// A property length overruns the command body, or the body is
    /// truncated mid-property.
    MalformedCommand,
    /// Bad greeting signature, unsupported security mechanism, or a
    /// command frame in an unexpected position.
    ProtocolViolation,
    /// The peer's major protocol version differs from ours.
    VersionMismatch,
    /// Empty multipart send, over-long topic, or an over-long property
    /// name or value.
    InvalidInput,
}

} // verus!
