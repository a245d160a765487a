//! The errors of monitoring and selection.

use vstd::prelude::*;

use crate::server::Address;

verus! {

/// What can go wrong while monitoring or selecting servers.
#[derive(Clone, Debug, PartialEq, Eq)]
pub enum Error {
    /// A connect, read or write failure during a heartbeat.
    NetworkFailure(String),
    /// A malformed or unparseable heartbeat reply.
    ProtocolFailure(String),
    /// The server's wire-version range does not overlap the driver's.
    IncompatibleServer(Address),
    /// No suitable server appeared before the caller's deadline.
    SelectionTimeout,
}

impl Error {
    /// An identical copy of the error.
    pub fn duplicate(&self) -> (r: Error)
        ensures
            r == *self,
    {
        match self {
            Error::NetworkFailure(m) => Error::NetworkFailure(m.clone()),
            Error::ProtocolFailure(m) => Error::ProtocolFailure(m.clone()),
            Error::IncompatibleServer(a) => Error::IncompatibleServer(a.duplicate()),
            Error::SelectionTimeout => Error::SelectionTimeout,
        }
    }
}

} // verus!
