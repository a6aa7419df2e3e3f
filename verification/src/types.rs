//! Values, errors and poll results that the rest of the crate speaks of.

use vstd::prelude::*;

verus! {

/// What polling something that may not have finished gave.
#[derive(Debug, PartialEq, Eq)]
pub enum Polled<T> {
    /// It has finished, with this outcome.
    Ready(T),
    /// It has not finished.
    Pending,
}

/// A reply of the server.
#[derive(Debug, PartialEq, Eq)]
pub enum Value {
    /// The nil reply.
    Nil,
    /// An integer reply.
    Int(i64),
    /// Arbitrary binary data.
    Data(Vec<u8>),
    /// A list of replies.
    Bulk(Vec<Value>),
    /// A status reply other than `OK`.
    Status(String),
    /// The status reply `OK`.
    Okay,
}

/// What kind of thing went wrong.
#[derive(Debug, PartialEq, Eq, Clone, Copy)]
pub enum ErrorKind {
    /// The server generated an invalid or unwelcome response.
    ResponseError,
    /// The authentication with the server failed.
    AuthenticationFailed,
    /// The client was configured in a way that cannot work.
    InvalidClientConfig,
}

/// What kind of thing went wrong with a connection.
#[derive(Debug, PartialEq, Eq, Clone, Copy)]
pub enum IoErrorKind {
    NotFound,
    PermissionDenied,
    ConnectionRefused,
    ConnectionReset,
    ConnectionAborted,
    NotConnected,
    AddrInUse,
    AddrNotAvailable,
    BrokenPipe,
    AlreadyExists,
    WouldBlock,
    InvalidInput,
    InvalidData,
    TimedOut,
    WriteZero,
    Interrupted,
    UnexpectedEof,
    Other,
}

/// A failure of a connection.
#[derive(Debug, PartialEq, Eq)]
pub struct IoError {
    pub kind: IoErrorKind,
    /// What is known beyond the kind.
    pub detail: Option<String>,
}

/// Any failure of the client.
#[derive(Debug, PartialEq, Eq)]
pub enum RedisError {
    /// A failure that the client found, with its description.
    WithDescription(ErrorKind, &'static str),
    /// A failure that the server signalled, with its description and what the server said.
    WithDescriptionAndDetail(ErrorKind, &'static str, String),
    /// A failure of the connection.
    IoError(IoError),
}

/// The outcome of an operation of the client.
pub type RedisResult<T> = Result<T, RedisError>;

/// The failure of the connection that stands for a pipeline that has shut down.
pub open spec fn broken_pipe() -> RedisError {
    RedisError::IoError(IoError { kind: IoErrorKind::BrokenPipe, detail: None })
}

/// The failure of the connection that stands for one that ended too early.
pub open spec fn unexpected_eof() -> RedisError {
    RedisError::IoError(IoError { kind: IoErrorKind::UnexpectedEof, detail: None })
}

} // verus!
