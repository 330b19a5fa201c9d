//! What a socket is watched for, and how it is handed to the poller.

use vstd::prelude::*;

verus! {

/// A set of readiness kinds: what a socket is watched for, or what a
/// readiness event reports.
#[derive(Clone, Copy, Debug, PartialEq, Eq, Structural)]
pub struct Interest {
    pub readable: bool,
    pub writable: bool,
    pub hup: bool,
    pub error: bool,
}

impl Interest {
    /// The empty set.
    pub fn empty() -> (interest: Interest)
        ensures
            interest == Interest::spec_empty(),
    {
        Interest { readable: false, writable: false, hup: false, error: false }
    }

    /// The set that holds hangup alone.
    pub fn hup() -> (interest: Interest)
        ensures
            interest == Interest::spec_hup(),
    {
        Interest { readable: false, writable: false, hup: true, error: false }
    }

    /// The set that holds readable alone.
    pub fn readable() -> (interest: Interest)
        ensures
            interest == Interest::spec_readable(),
    {
        Interest { readable: true, writable: false, hup: false, error: false }
    }

    pub open spec fn spec_empty() -> Interest {
        Interest { readable: false, writable: false, hup: false, error: false }
    }

    pub open spec fn spec_hup() -> Interest {
        Interest { readable: false, writable: false, hup: true, error: false }
    }

    pub open spec fn spec_readable() -> Interest {
        Interest { readable: true, writable: false, hup: false, error: false }
    }
}

/// One registration with the poller: the socket that `token` stands for is
/// to be watched for `interest`, edge-triggered, and disarmed after one
/// event where `oneshot` is set. The poller is to report its events under
/// `key`.
#[derive(Clone, Copy, Debug, PartialEq, Eq, Structural)]
pub struct Registration {
    pub token: usize,
    pub key: usize,
    pub interest: Interest,
    pub edge: bool,
    pub oneshot: bool,
}

} // verus!
