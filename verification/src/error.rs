//! The errors of the framing layer: a closed set of kinds, each with the
//! HTTP/2 error code that a connection reports for it, and a display text.

use vstd::prelude::*;
use vstd::std_specs::convert::FromSpecImpl;

verus! {

/// Why an operation failed. Each kind stands for one HTTP/2 error code.
#[derive(Copy, Clone, PartialEq, Eq, Structural, Debug)]
pub enum ErrorKind {
    /// The endpoint detected an unspecific protocol error.
    Protocol,
    /// The endpoint encountered an unexpected internal error.
    Internal,
    /// The endpoint detected that its peer violated the flow-control protocol.
    FlowControl,
    /// The endpoint received a frame with an invalid size.
    FrameSize,
    /// The endpoint refused the stream prior to performing any application processing.
    RefusedStream,
    /// Used by the endpoint to indicate that the stream is no longer needed.
    Cancel,
    /// The endpoint is unable to maintain the header compression context for the connection.
    Compression,
    /// The connection established in response to a CONNECT request was reset or abnormally closed.
    Connect,
    /// The endpoint detected that its peer is exhibiting a behavior
    /// that might be generating excessive load.
    EnhanceYourCalm,
    /// The underlying transport has properties that do not meet minimum security requirements.
    InadequateSecurity,
    /// The endpoint requires that HTTP/1.1 be used instead of HTTP/2.
    Http11Required,
}

impl ErrorKind {
    /// The HTTP/2 error code of this kind.
    pub open spec fn spec_code(self) -> nat {
        match self {
            ErrorKind::Protocol => 0x1,
            ErrorKind::Internal => 0x2,
            ErrorKind::FlowControl => 0x3,
            ErrorKind::FrameSize => 0x6,
            ErrorKind::RefusedStream => 0x7,
            ErrorKind::Cancel => 0x8,
            ErrorKind::Compression => 0x9,
            ErrorKind::Connect => 0xa,
            ErrorKind::EnhanceYourCalm => 0xb,
            ErrorKind::InadequateSecurity => 0xc,
            ErrorKind::Http11Required => 0xd,
        }
    }

    /// The code to put in a GOAWAY or RST_STREAM frame.
    pub fn code(&self) -> (c: u32)
        ensures
            c == self.spec_code(),
    {
        match self {
            ErrorKind::Protocol => 0x1,
            ErrorKind::Internal => 0x2,
            ErrorKind::FlowControl => 0x3,
            ErrorKind::FrameSize => 0x6,
            ErrorKind::RefusedStream => 0x7,
            ErrorKind::Cancel => 0x8,
            ErrorKind::Compression => 0x9,
            ErrorKind::Connect => 0xa,
            ErrorKind::EnhanceYourCalm => 0xb,
            ErrorKind::InadequateSecurity => 0xc,
            ErrorKind::Http11Required => 0xd,
        }
    }
}

/// How the transport failed.
#[derive(Copy, Clone, PartialEq, Eq, Structural, Debug)]
pub enum TransportErrorKind {
    /// Nothing can be read right now; later there may be more.
    WouldBlock,
    /// The transport failed.
    Failed,
}

/// The failure of a read from a byte source or of a write to a byte sink.
#[derive(Debug)]
pub struct TransportError {
    kind: TransportErrorKind,
    message: String,
    cause: Option<String>,
}

/// What a `TransportError` holds.
pub struct TransportErrorView {
    pub kind: TransportErrorKind,
    pub message: Seq<char>,
    pub cause: Option<Seq<char>>,
}

/// The text in `text`, if there is one.
pub open spec fn text_of(text: Option<String>) -> Option<Seq<char>> {
    match text {
        Some(text) => Some(text@),
        None => None,
    }
}

impl View for TransportError {
    type V = TransportErrorView;

    closed spec fn view(&self) -> TransportErrorView {
        TransportErrorView { kind: self.kind, message: self.message@, cause: text_of(self.cause) }
    }
}

impl TransportError {
    /// A failure with a display text and no cause behind it.
    pub fn new(kind: TransportErrorKind, message: &str) -> (e: TransportError)
        ensures
            e@ == (TransportErrorView { kind, message: message@, cause: None }),
    {
        TransportError { kind, message: message.to_string(), cause: None }
    }

    /// The same failure with the text of the error that lies behind it.
    pub fn caused_by(self, cause: &str) -> (e: TransportError)
        ensures
            e@ == (TransportErrorView { cause: Some(cause@), ..self@ }),
    {
        TransportError { kind: self.kind, message: self.message, cause: Some(cause.to_string()) }
    }

    /// The transport has nothing to hand over at the moment.
    pub fn would_block() -> (e: TransportError)
        ensures
            e@ == (TransportErrorView {
                kind: TransportErrorKind::WouldBlock,
                message: "operation would block"@,
                cause: None,
            }),
    {
        TransportError {
            kind: TransportErrorKind::WouldBlock,
            message: "operation would block".to_string(),
            cause: None,
        }
    }

    pub fn kind(&self) -> (k: TransportErrorKind)
        ensures
            k == self@.kind,
    {
        self.kind
    }

    /// The display text.
    pub fn description(&self) -> (s: &str)
        ensures
            s@ == self@.message,
    {
        self.message.as_str()
    }

    /// The text of the error behind this one, if there is one.
    pub fn cause(&self) -> (cause: Option<&str>)
        ensures
            cause is Some == self@.cause is Some,
            cause matches Some(text) ==> self@.cause == Some(text@),
    {
        match &self.cause {
            Some(text) => Some(text.as_str()),
            None => None,
        }
    }
}

/// An error of the framing layer: its kind, a display text, and the text
/// of the error behind it, if there is one.
#[derive(Debug)]
pub struct Error {
    kind: ErrorKind,
    message: String,
    cause: Option<String>,
}

/// What an `Error` holds.
pub struct ErrorView {
    pub kind: ErrorKind,
    pub message: Seq<char>,
    pub cause: Option<Seq<char>>,
}

impl View for Error {
    type V = ErrorView;

    closed spec fn view(&self) -> ErrorView {
        ErrorView { kind: self.kind, message: self.message@, cause: text_of(self.cause) }
    }
}

impl Error {
    /// An error with a display text and no cause behind it.
    pub fn new(kind: ErrorKind, message: &str) -> (e: Error)
        ensures
            e@ == (ErrorView { kind, message: message@, cause: None }),
    {
        Error { kind, message: message.to_string(), cause: None }
    }

    pub fn protocol(message: &str) -> (e: Error)
        ensures
            e@ == (ErrorView { kind: ErrorKind::Protocol, message: message@, cause: None }),
    {
        Self::new(ErrorKind::Protocol, message)
    }

    pub fn frame_size(message: &str) -> (e: Error)
        ensures
            e@ == (ErrorView { kind: ErrorKind::FrameSize, message: message@, cause: None }),
    {
        Self::new(ErrorKind::FrameSize, message)
    }

    pub fn kind(&self) -> (k: ErrorKind)
        ensures
            k == self@.kind,
    {
        self.kind
    }

    /// The display text.
    pub fn description(&self) -> (s: &str)
        ensures
            s@ == self@.message,
    {
        self.message.as_str()
    }

    /// The text of the error behind this one, if there is one.
    pub fn cause(&self) -> (cause: Option<&str>)
        ensures
            cause is Some == self@.cause is Some,
            cause matches Some(text) ==> self@.cause == Some(text@),
    {
        match &self.cause {
            Some(text) => Some(text.as_str()),
            None => None,
        }
    }

    /// A failure of the transport, as an internal error with the same text
    /// and the same cause.
    pub fn transport(err: TransportError) -> (e: Error)
        ensures
            e@ == (ErrorView {
                kind: ErrorKind::Internal,
                message: err@.message,
                cause: err@.cause,
            }),
    {
        Error { kind: ErrorKind::Internal, message: err.message, cause: err.cause }
    }
}

impl FromSpecImpl<TransportError> for Error {
    open spec fn obeys_from_spec() -> bool {
        true
    }

    closed spec fn from_spec(err: TransportError) -> Error {
        Error { kind: ErrorKind::Internal, message: err.message, cause: err.cause }
    }
}

/// A failure of the transport is an internal error with the same text.
impl From<TransportError> for Error {
    fn from(err: TransportError) -> (e: Error)
        ensures
            e@ == (ErrorView {
                kind: ErrorKind::Internal,
                message: err@.message,
                cause: err@.cause,
            }),
    {
        Error { kind: ErrorKind::Internal, message: err.message, cause: err.cause }
    }
}

} // verus!
