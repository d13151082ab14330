//! Errors of system calls as plain values.
use vstd::prelude::*;

verus! {

/// The kinds of failure that the library tells apart.
#[derive(Clone, Copy, Debug, PartialEq, Eq, Structural)]
pub enum ErrorKind {
    NotFound,
    PermissionDenied,
    ConnectionRefused,
    ConnectionReset,
    ConnectionAborted,
    NotConnected,
    NetworkDown,
    NetworkUnreachable,
    HostUnreachable,
    AlreadyExists,
    InvalidInput,
    InvalidData,
    TimedOut,
    Interrupted,
    Unsupported,
    UnexpectedEof,
    WriteZero,
    BrokenPipe,
    Other,
}

/// A failure with its kind, the system's number for it where there is one, and a text.
#[derive(Clone, Debug, PartialEq, Eq)]
pub struct IoError {
    pub kind: ErrorKind,
    pub code: Option<i32>,
    pub message: String,
}

/// The failure has this kind and text, and no system number.
pub open spec fn fails_with(error: IoError, kind: ErrorKind, message: Seq<char>) -> bool {
    error.kind == kind && error.code is None && error.message@ == message
}

/// The text of a failure of which only the kind is known.
pub open spec fn kind_text(kind: ErrorKind) -> Seq<char> {
    match kind {
        ErrorKind::NotFound => "entity not found"@,
        ErrorKind::PermissionDenied => "permission denied"@,
        ErrorKind::ConnectionRefused => "connection refused"@,
        ErrorKind::ConnectionReset => "connection reset"@,
        ErrorKind::ConnectionAborted => "connection aborted"@,
        ErrorKind::NotConnected => "not connected"@,
        ErrorKind::NetworkDown => "network down"@,
        ErrorKind::NetworkUnreachable => "network unreachable"@,
        ErrorKind::HostUnreachable => "host unreachable"@,
        ErrorKind::AlreadyExists => "entity already exists"@,
        ErrorKind::InvalidInput => "invalid input parameter"@,
        ErrorKind::InvalidData => "invalid data"@,
        ErrorKind::TimedOut => "timed out"@,
        ErrorKind::Interrupted => "operation interrupted"@,
        ErrorKind::Unsupported => "unsupported"@,
        ErrorKind::UnexpectedEof => "unexpected end of file"@,
        ErrorKind::WriteZero => "write zero"@,
        ErrorKind::BrokenPipe => "broken pipe"@,
        ErrorKind::Other => "other error"@,
    }
}

fn shown_kind(kind: ErrorKind) -> (text: &'static str)
    ensures
        text@ == kind_text(kind),
{
    match kind {
        ErrorKind::NotFound => "entity not found",
        ErrorKind::PermissionDenied => "permission denied",
        ErrorKind::ConnectionRefused => "connection refused",
        ErrorKind::ConnectionReset => "connection reset",
        ErrorKind::ConnectionAborted => "connection aborted",
        ErrorKind::NotConnected => "not connected",
        ErrorKind::NetworkDown => "network down",
        ErrorKind::NetworkUnreachable => "network unreachable",
        ErrorKind::HostUnreachable => "host unreachable",
        ErrorKind::AlreadyExists => "entity already exists",
        ErrorKind::InvalidInput => "invalid input parameter",
        ErrorKind::InvalidData => "invalid data",
        ErrorKind::TimedOut => "timed out",
        ErrorKind::Interrupted => "operation interrupted",
        ErrorKind::Unsupported => "unsupported",
        ErrorKind::UnexpectedEof => "unexpected end of file",
        ErrorKind::WriteZero => "write zero",
        ErrorKind::BrokenPipe => "broken pipe",
        ErrorKind::Other => "other error",
    }
}

impl IoError {
    pub fn new(kind: ErrorKind, message: &str) -> (error: IoError)
        ensures
            fails_with(error, kind, message@),
    {
        IoError { kind, code: None, message: message.to_string() }
    }

    /// A failure of which only the kind is known.
    pub fn from_kind(kind: ErrorKind) -> (error: IoError)
        ensures
            fails_with(error, kind, kind_text(kind)),
    {
        IoError::new(kind, shown_kind(kind))
    }

    pub fn with_code(kind: ErrorKind, code: i32, message: String) -> (error: IoError)
        ensures
            error.kind == kind,
            error.code == Some(code),
            error.message == message,
    {
        IoError { kind, code: Some(code), message }
    }

    pub fn kind(&self) -> (kind: ErrorKind)
        ensures
            kind == self.kind,
    {
        self.kind
    }
}

} // verus!
