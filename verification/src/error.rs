use vstd::prelude::*;

verus! {

/// Why a batch read from the backing store did not complete.
#[derive(Clone, Copy, Debug, PartialEq, Eq)]
pub enum StoreError {
    /// The store could not be reached.
    Connectivity,
    /// The store answered, but the records could not be decoded.
    Malformed,
    /// The read did not finish in time.
    Timeout,
}

/// Error surfaced by a refresh.  A failed refresh leaves the previously
/// installed generation fully intact; retrying is the caller's decision.
#[derive(Clone, Copy, Debug, PartialEq, Eq)]
pub enum AppError {
    /// The load from the backing store failed.
    Store(StoreError),
}

} // verus!
