//! The closed set of error kinds the system distinguishes.
//!
//! Structural metadata misses are reported as found/not-found results, never
//! thrown; a transfer fails fast on its first part error with nothing rolled
//! back; a remote-deletion failure is logged and swallowed, the local change
//! standing. The kinds here name those outcomes for callers that need to
//! tell them apart.

use vstd::prelude::*;

verus! {

/// What went wrong, by policy class.
#[derive(Clone, Copy, Debug, PartialEq, Eq, Structural)]
pub enum ErrorKind {
    /// An unknown id was handed to rename, star, trash or restore.
    NotFound,
    /// The remote gateway was not connected or authorized when a
    /// byte-moving or remote-deletion operation was attempted.
    Unready,
    /// An individual part upload or download failed; the whole transfer is
    /// abandoned, with no partial success.
    PartTransferFailure,
    /// The durable write of the metadata snapshot failed.
    PersistenceFailure,
    /// The remote side refused a deletion request; the local removal
    /// stands.
    RemoteDeletionFailure,
}

impl ErrorKind {
    /// A short name for the kind.
    pub fn message(&self) -> (r: String)
        ensures
            *self is NotFound ==> r@ == "not found"@,
            *self is Unready ==> r@ == "remote gateway not ready"@,
            *self is PartTransferFailure ==> r@ == "part transfer failed"@,
            *self is PersistenceFailure ==> r@ == "persistence failed"@,
            *self is RemoteDeletionFailure ==> r@ == "remote deletion failed"@,
    {
        match self {
            ErrorKind::NotFound => String::from_str("not found"),
            ErrorKind::Unready => String::from_str("remote gateway not ready"),
            ErrorKind::PartTransferFailure => String::from_str("part transfer failed"),
            ErrorKind::PersistenceFailure => String::from_str("persistence failed"),
            ErrorKind::RemoteDeletionFailure => String::from_str("remote deletion failed"),
        }
    }
}

} // verus!
