//! What can go wrong on a socket, and what to do about it.

use vstd::prelude::*;

verus! {

/// The kind of a failed read or write, as far as the chat service tells kinds
/// apart.
#[derive(Debug, Clone, Copy, PartialEq, Eq, Structural)]
pub enum IoFailure {
    /// Nothing to read right now on a socket that does not block.
    WouldBlock,
    /// The peer reset the connection.
    ConnectionReset,
    /// The connection timed out.
    TimedOut,
    /// The connection was given up on this side.
    ConnectionAborted,
    /// Any other failure.
    Other,
}

/// What a reader does after a failure.
#[derive(Debug, Clone, Copy, PartialEq, Eq, Structural)]
pub enum Disposition {
    /// No failure at all: there was nothing to read, try again.
    Retry,
    /// The connection is gone. The handler ends.
    Terminal,
    /// Worth a line in the log, and the handler goes on.
    Ignore,
}

/// What the server's reader does after a failed read: a reset or a timeout
/// ends the handler, nothing else does.
pub fn classify(failure: IoFailure) -> (r: Disposition)
    ensures
        r == disposition(failure),
{
    match failure {
        IoFailure::WouldBlock => Disposition::Retry,
        IoFailure::ConnectionReset => Disposition::Terminal,
        IoFailure::TimedOut => Disposition::Terminal,
        IoFailure::ConnectionAborted => Disposition::Ignore,
        IoFailure::Other => Disposition::Ignore,
    }
}

/// What the server's reader does after a failed read.
pub open spec fn disposition(failure: IoFailure) -> Disposition {
    match failure {
        IoFailure::WouldBlock => Disposition::Retry,
        IoFailure::ConnectionReset | IoFailure::TimedOut => Disposition::Terminal,
        _ => Disposition::Ignore,
    }
}

/// What probing the socket of a session found.
#[derive(Debug, Clone, Copy, PartialEq, Eq, Structural)]
pub enum Probe {
    /// The socket has a timeout pending: the session lost its connection.
    TimedOut,
    /// Anything else: the session counts as connected.
    Live,
}

impl Probe {
    /// Reads a probe off the error that is pending on a socket, if one is.
    pub fn of(pending: Option<IoFailure>) -> (r: Probe)
        ensures
            r is TimedOut <==> pending == Some(IoFailure::TimedOut),
    {
        match pending {
            Some(IoFailure::TimedOut) => Probe::TimedOut,
            _ => Probe::Live,
        }
    }
}

/// What a read on a socket gave.
#[derive(Debug, PartialEq, Eq)]
pub enum Read {
    /// Bytes, at least one.
    Data(Vec<u8>),
    /// No byte: the socket had none, or was busy under a writer.
    Nothing,
    /// A failure.
    Failed(IoFailure),
}

/// The bytes that a read gave.
pub open spec fn incoming(read: Read) -> Seq<u8> {
    match read {
        Read::Data(bytes) => bytes@,
        _ => Seq::empty(),
    }
}

} // verus!
