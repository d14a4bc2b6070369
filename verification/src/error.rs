//! One error enum covering every way RTMP goes wrong.

use vstd::prelude::*;
use crate::text::{cat, hex_text};
#[allow(unused_imports)]
use crate::text::numeral;

verus! {

/// What became of a call, in this library's error type.
pub type Result<T> = core::result::Result<T, Error>;

/// The kinds of transport failure that the protocol logic tells apart.
#[derive(Debug, Clone, Copy, PartialEq, Eq, Structural)]
pub enum IoErrorKind {
    UnexpectedEof,
    ConnectionReset,
    WouldBlock,
    TimedOut,
    Other,
}

/// A transport failure: its kind and the transport's own words for it.
#[derive(Debug, Clone, PartialEq, Eq)]
pub struct IoError {
    pub kind: IoErrorKind,
    pub message: String,
}

#[derive(Debug, Clone, PartialEq, Eq)]
pub enum Error {
    /// The transport failed.
    Io(IoError),
    /// The peer closed the connection mid-protocol, or a buffer ended inside
    /// a field.
    UnexpectedEof,
    /// The first handshake byte was not version 3.
    UnsupportedHandshakeVersion(u8),
    /// Bytes that are no valid AMF value.
    InvalidAmf0(String),
    /// A chunk header shape or reserved value that has no meaning.
    InvalidChunk(String),
    /// A command message without the expected name, transaction id or
    /// arguments.
    InvalidCommand(String),
    /// A field carries a value outside its legal range.
    ProtocolViolation(String),
    /// A publish attempt was rejected, with the reason.
    Rejected(String),
    /// A message was awaited and the deadline elapsed.
    Timeout,
    /// Anything that has no variant of its own.
    Other(String),
}

/// The mathematical view of [`Error`].
pub enum Fault {
    Io(IoErrorKind, Seq<char>),
    UnexpectedEof,
    UnsupportedHandshakeVersion(u8),
    InvalidAmf0(Seq<char>),
    InvalidChunk(Seq<char>),
    InvalidCommand(Seq<char>),
    ProtocolViolation(Seq<char>),
    Rejected(Seq<char>),
    Timeout,
    Other(Seq<char>),
}

impl View for Error {
    type V = Fault;

    open spec fn view(&self) -> Fault {
        match *self {
            Error::Io(e) => Fault::Io(e.kind, e.message@),
            Error::UnexpectedEof => Fault::UnexpectedEof,
            Error::UnsupportedHandshakeVersion(v) => Fault::UnsupportedHandshakeVersion(v),
            Error::InvalidAmf0(m) => Fault::InvalidAmf0(m@),
            Error::InvalidChunk(m) => Fault::InvalidChunk(m@),
            Error::InvalidCommand(m) => Fault::InvalidCommand(m@),
            Error::ProtocolViolation(m) => Fault::ProtocolViolation(m@),
            Error::Rejected(m) => Fault::Rejected(m@),
            Error::Timeout => Fault::Timeout,
            Error::Other(m) => Fault::Other(m@),
        }
    }
}

impl Fault {
    /// The text a user sees for this failure.
    pub open spec fn message(self) -> Seq<char> {
        match self {
            Fault::Io(_, m) => "rtmp i/o: "@ + m,
            Fault::UnexpectedEof => "rtmp: peer closed connection"@,
            Fault::UnsupportedHandshakeVersion(v) => {
                "rtmp handshake: unsupported version byte 0x"@ + numeral(v as nat, 16)
            },
            Fault::InvalidAmf0(m) => "rtmp amf0: "@ + m,
            Fault::InvalidChunk(m) => "rtmp chunk: "@ + m,
            Fault::InvalidCommand(m) => "rtmp command: "@ + m,
            Fault::ProtocolViolation(m) => "rtmp protocol: "@ + m,
            Fault::Rejected(m) => "rtmp: publish rejected: "@ + m,
            Fault::Timeout => "rtmp: timeout"@,
            Fault::Other(m) => "rtmp: "@ + m,
        }
    }
}

impl Error {
    /// The text a user sees for this error.
    pub fn message(&self) -> (s: String)
        ensures
            s@ == self@.message(),
    {
        match self {
            Error::Io(e) => cat("rtmp i/o: ", e.message.as_str()),
            Error::UnexpectedEof => "rtmp: peer closed connection".to_owned(),
            Error::UnsupportedHandshakeVersion(v) => {
                let digits = hex_text(*v as u64);
                cat("rtmp handshake: unsupported version byte 0x", digits.as_str())
            },
            Error::InvalidAmf0(m) => cat("rtmp amf0: ", m.as_str()),
            Error::InvalidChunk(m) => cat("rtmp chunk: ", m.as_str()),
            Error::InvalidCommand(m) => cat("rtmp command: ", m.as_str()),
            Error::ProtocolViolation(m) => cat("rtmp protocol: ", m.as_str()),
            Error::Rejected(m) => cat("rtmp: publish rejected: ", m.as_str()),
            Error::Timeout => "rtmp: timeout".to_owned(),
            Error::Other(m) => cat("rtmp: ", m.as_str()),
        }
    }
}

/// What a call came to, with values and errors taken by their views.
pub open spec fn outcome<T: View>(r: Result<T>) -> core::result::Result<T::V, Fault> {
    match r {
        Ok(v) => Ok(v@),
        Err(e) => Err(e@),
    }
}

/// `Other` with a fixed text.
pub fn other(m: &str) -> (e: Error)
    ensures
        e@ == Fault::Other(m@),
{
    Error::Other(m.to_owned())
}

/// `InvalidAmf0` with a fixed text.
pub fn invalid_amf0(m: &str) -> (e: Error)
    ensures
        e@ == Fault::InvalidAmf0(m@),
{
    Error::InvalidAmf0(m.to_owned())
}

/// `InvalidChunk` with a fixed text.
pub fn invalid_chunk(m: &str) -> (e: Error)
    ensures
        e@ == Fault::InvalidChunk(m@),
{
    Error::InvalidChunk(m.to_owned())
}

/// What a user reads of each failure.
pub proof fn law_messages(kind: IoErrorKind, m: Seq<char>, version: u8)
    ensures
        Fault::Io(kind, m).message() == "rtmp i/o: "@ + m,
        Fault::UnexpectedEof.message() == "rtmp: peer closed connection"@,
        Fault::UnsupportedHandshakeVersion(version).message()
            == "rtmp handshake: unsupported version byte 0x"@ + numeral(version as nat, 16),
        Fault::InvalidAmf0(m).message() == "rtmp amf0: "@ + m,
        Fault::InvalidChunk(m).message() == "rtmp chunk: "@ + m,
        Fault::InvalidCommand(m).message() == "rtmp command: "@ + m,
        Fault::ProtocolViolation(m).message() == "rtmp protocol: "@ + m,
        Fault::Rejected(m).message() == "rtmp: publish rejected: "@ + m,
        Fault::Timeout.message() == "rtmp: timeout"@,
        Fault::Other(m).message() == "rtmp: "@ + m,
{
}

/// An error says what its kind says, and the errors with a fixed text carry that text.
pub proof fn law_errors_speak(
    e: &Error,
    m: &str,
    said: String,
    a: Error,
    b: Error,
    c: Error,
)
    requires
        call_ensures(Error::message, (e,), said),
        call_ensures(other, (m,), a),
        call_ensures(invalid_amf0, (m,), b),
        call_ensures(invalid_chunk, (m,), c),
    ensures
        match *e {
            Error::InvalidAmf0(t) => said@ == "rtmp amf0: "@ + t@,
            Error::InvalidChunk(t) => said@ == "rtmp chunk: "@ + t@,
            Error::InvalidCommand(t) => said@ == "rtmp command: "@ + t@,
            Error::ProtocolViolation(t) => said@ == "rtmp protocol: "@ + t@,
            Error::Rejected(t) => said@ == "rtmp: publish rejected: "@ + t@,
            Error::Other(t) => said@ == "rtmp: "@ + t@,
            _ => said@ == e@.message(),
        },
        a matches Error::Other(t) && t@ == m@,
        b matches Error::InvalidAmf0(t) && t@ == m@,
        c matches Error::InvalidChunk(t) && t@ == m@,
{
}

} // verus!
