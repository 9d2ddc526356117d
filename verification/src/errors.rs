//! The error taxonomy of a session.
//!
//! Schema failures are recoverable: the offending message is dropped and the
//! session goes on. A handshake failure is fatal: it ends the session before
//! any audio device is opened. Device and transport failures arise only at
//! the unverified edges and are mapped to these variants there.

use vstd::prelude::*;

verus! {

/// Why a byte range could not be read as a message or a sample payload.
#[derive(Clone, Copy, Debug, PartialEq, Eq, Structural)]
pub enum SchemaError {
    /// The buffer ends before the message does.
    Truncated,
    /// The leading tag byte names no message kind.
    UnknownTag,
    /// The sample-format code names no supported format.
    UnknownFormat,
    /// The byte-order code is neither little nor big.
    UnknownByteOrder,
    /// The terminate flag byte is neither zero nor one.
    UnknownFlag,
    /// The channel count or the sample rate is zero.
    ZeroField,
    /// Bytes follow the end of the message.
    TrailingBytes,
    /// A terminate message carries a payload.
    TerminatePayload,
    /// The payload length is not a whole number of samples.
    LengthMismatch,
    /// A `Config` arrived after the handshake was already done.
    UnexpectedConfig,
}

/// The failures a session can meet.
#[derive(Clone, Copy, Debug, PartialEq, Eq, Structural)]
pub enum SessionError {
    /// The first message of a session was missing, malformed, or not a `Config`.
    Handshake,
    /// A later message was malformed; it is dropped and the session goes on.
    Schema(SchemaError),
    /// The audio device could not be opened or started.
    Device,
    /// The transport could not carry a message.
    Transport,
}

} // verus!
