//! The error kinds of the client. All failures are data; nothing panics.
use crate::reply::{ParseError, Reply};
use crate::smtp::TransportError;
use vstd::prelude::*;

verus! {

/// A failure of a protocol operation.
#[derive(Debug)]
pub enum Error {
    /// The transport failed while a command was being written.
    IOError(TransportError),
    /// The peer's reply could not be parsed.
    ParseError(ParseError),
    /// The peer answered with an unexpected status code; the whole reply is
    /// kept for diagnostics.
    ErrorReply(Reply),
    /// The greeting or the EHLO exchange failed; wraps the underlying error.
    HandshakeError(Box<Error>),
    /// An extension was requested that the peer did not advertise.
    ExtensionNotSupported(String),
    /// A failure outside the protocol itself (address resolution,
    /// connection setup).
    OtherError(String),
}

/// The usual result of a protocol operation.
pub type SmtpResult<T> = Result<T, Error>;

} // verus!
