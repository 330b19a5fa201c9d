//! The ways in which a connection fails.

use vstd::prelude::*;

verus! {

/// Why a connection has to be given up.
///
/// A socket call that would block is no failure: it leaves a continuation
/// behind and is taken up again on the next readiness event.
#[derive(Clone, Copy, Debug, PartialEq, Eq, Structural)]
pub enum ConnectionError {
    /// A short read or write that no would-block condition explains.
    ProtocolViolation,
    /// Any other failure of the socket.
    FatalIO,
    /// A writable event arrived while nothing was queued for sending.
    Other,
}

impl ConnectionError {
    /// The message that goes with the failure.
    pub fn message(&self) -> (text: &'static str)
        ensures
            text == self.spec_message(),
    {
        match self {
            ConnectionError::ProtocolViolation => "Invalid message length",
            ConnectionError::FatalIO => "Socket failure",
            ConnectionError::Other => "Could not pop send queue",
        }
    }

    /// The message of each failure.
    pub open spec fn spec_message(&self) -> &'static str {
        match self {
            ConnectionError::ProtocolViolation => "Invalid message length",
            ConnectionError::FatalIO => "Socket failure",
            ConnectionError::Other => "Could not pop send queue",
        }
    }
}

/// Why the reactor gives a connection up.
#[derive(Clone, Copy, Debug, PartialEq, Eq, Structural)]
pub enum Cause {
    /// The poller reported an error on the socket.
    Error,
    /// The poller reported that the peer hung up.
    Hangup,
    /// A read or a write failed the connection.
    Connection(ConnectionError),
    /// The poller refused the registration of a socket just accepted.
    RegistrationFailure,
    /// The poller refused to register the socket anew.
    ReregistrationFailure,
}

} // verus!
