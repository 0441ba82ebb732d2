//! Plain values that describe what a non-blocking transport reported.

use vstd::prelude::*;

verus! {

/// Whether the transport has announced room for a write since the last
/// would-block.
#[derive(Clone, Copy, Debug, PartialEq, Eq, Structural)]
pub enum WriteState {
    Unwritable,
    Writable,
}

impl WriteState {
    /// The flag as a boolean: `true` for `Writable`.
    pub open spec fn writable(self) -> bool {
        self is Writable
    }
}

/// How a read, write, accept or poll on a non-blocking transport failed, as
/// far as the engine tells failures apart.
#[derive(Clone, Copy, Debug, PartialEq, Eq, Structural)]
pub enum IoFailure {
    /// Nothing can be done right now; a readiness event will follow.
    WouldBlock,
    /// A signal cut the call short; the call may be repeated at once.
    Interrupted,
    /// The peer reset the connection.
    ConnectionReset,
    /// A write made no progress.
    WriteZero,
    /// Any other failure.
    Other,
}

/// What an event loop does after a call that it cannot do without has failed.
#[derive(Clone, Copy, Debug, PartialEq, Eq, Structural)]
pub enum Recovery {
    /// Make the same call again.
    Retry,
    /// Give up: the loop ends.
    Fatal,
}

/// The recovery from a failed poll: an interrupted poll is repeated, any
/// other failure ends the loop.
pub open spec fn poll_recovery(failure: IoFailure) -> Recovery {
    if failure is Interrupted {
        Recovery::Retry
    } else {
        Recovery::Fatal
    }
}

/// The recovery from a failed connect to the control socket: a would-block
/// means that the connection cannot be completed yet and is tried again, any
/// other failure ends the client.
pub open spec fn connect_recovery(failure: IoFailure) -> Recovery {
    if failure is WouldBlock {
        Recovery::Retry
    } else {
        Recovery::Fatal
    }
}

/// Decides what follows a failed poll.
pub fn after_poll_failure(failure: IoFailure) -> (recovery: Recovery)
    ensures
        recovery == poll_recovery(failure),
{
    match failure {
        IoFailure::Interrupted => Recovery::Retry,
        _ => Recovery::Fatal,
    }
}

/// Decides what follows a failed connect.
pub fn after_connect_failure(failure: IoFailure) -> (recovery: Recovery)
    ensures
        recovery == connect_recovery(failure),
{
    match failure {
        IoFailure::WouldBlock => Recovery::Retry,
        _ => Recovery::Fatal,
    }
}

} // verus!
