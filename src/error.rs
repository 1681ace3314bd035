//! The errors that the cache's operations report.
use vstd::prelude::*;

verus! {

/// Why a cache operation failed.
#[derive(Debug, PartialEq, Eq)]
pub enum Error {
    /// The write queue refused the mutation; the text says why.
    SendError(String),
    /// The key is not stored.
    KeyDoesntExist,
    /// The cache has been shut down.
    CacheClosed,
    /// A record could not be encoded or decoded.
    CodecError,
}

} // verus!
