//! The ways in which a request or the bootstrap can fail.

use vstd::prelude::*;

verus! {

/// Why an operation did not resolve to its result.
///
/// Nothing is recovered from or retried in this crate: a failure that the
/// dispatcher reports reaches the caller as it is.
#[derive(Clone, Copy, Debug, PartialEq, Eq, Hash, Structural)]
pub enum Error {
    /// The bootstrap could not reach or validate the cluster. No client
    /// exists afterwards.
    Connection,
    /// The key of a single-key get has no entry in its partition.
    NotFound,
    /// The request could not be carried out: the transport or the cluster
    /// failed, or the partition that the request names is not one of the
    /// cluster's.
    Dispatch,
    /// A batch was carried out in part only.
    PartialBatch,
}

impl Error {
    /// A short description for messages and logs.
    pub fn describe(&self) -> (text: &'static str)
        ensures
            text@ == (match *self {
                Error::Connection => "could not connect to the cluster"@,
                Error::NotFound => "key not found"@,
                Error::Dispatch => "the request could not be dispatched"@,
                Error::PartialBatch => "the batch was only partially applied"@,
            }),
    {
        match self {
            Error::Connection => "could not connect to the cluster",
            Error::NotFound => "key not found",
            Error::Dispatch => "the request could not be dispatched",
            Error::PartialBatch => "the batch was only partially applied",
        }
    }
}

} // verus!
