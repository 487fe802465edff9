//! The ways in which the pipeline fails.

use vstd::prelude::*;

verus! {

/// An error of the pipeline.
#[derive(Clone, Copy, Debug, PartialEq, Eq, Structural)]
pub enum Error {
    /// A call to the node failed for good.
    RpcError,
    /// The checkpoint store could not be reached.
    DbConnectionError,
    /// The checkpoint store could not be read or written.
    DbQueryError,
    /// A checkpoint below the stored one was offered.
    CheckpointRegression { stored: u64, attempted: u64 },
    /// A block number that can never lie below a chain head was offered.
    BlockOutOfRange { block_number: u64 },
    /// The chain-head tracker has failed for good.
    HeadTrackerFailed,
    /// The pipeline was cancelled.
    Cancelled,
}

impl Error {
    /// The text of the error.
    pub open spec fn text(self) -> Seq<char> {
        match self {
            Error::RpcError => "RPC error"@,
            Error::DbConnectionError => "Database connection error"@,
            Error::DbQueryError => "Database query error"@,
            Error::CheckpointRegression { .. } => "Checkpoint below the stored one"@,
            Error::BlockOutOfRange { .. } => "Block number out of range"@,
            Error::HeadTrackerFailed => "Chain head tracker failed"@,
            Error::Cancelled => "Cancelled"@,
        }
    }

    /// The text of the error.
    pub fn message(&self) -> (message: String)
        ensures
            message@ == self.text(),
    {
        match self {
            Error::RpcError => "RPC error".to_owned(),
            Error::DbConnectionError => "Database connection error".to_owned(),
            Error::DbQueryError => "Database query error".to_owned(),
            Error::CheckpointRegression { .. } => "Checkpoint below the stored one".to_owned(),
            Error::BlockOutOfRange { .. } => "Block number out of range".to_owned(),
            Error::HeadTrackerFailed => "Chain head tracker failed".to_owned(),
            Error::Cancelled => "Cancelled".to_owned(),
        }
    }

    /// Whether the pipeline has to stop on this error. Cancellation is an
    /// orderly exit; everything else is a failure.
    pub fn is_failure(&self) -> (failure: bool)
        ensures
            failure == !(self is Cancelled),
    {
        match self {
            Error::Cancelled => false,
            _ => true,
        }
    }
}

} // verus!
