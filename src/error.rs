use vstd::prelude::*;

verus! {

/// What a request against the stores can fail with.
#[derive(Clone, Copy, Debug, PartialEq, Eq, Structural)]
pub enum StoreError {
    /// The key is absent, or the cache entry under it has expired.
    NotFound,
    /// The storage layer refused the write (a violated key constraint).
    StorageFailure,
}

/// A read outcome as a result: what was found, or `NotFound`.
pub open spec fn found<T>(o: Option<T>) -> Result<T, StoreError> {
    match o {
        Some(v) => Ok(v),
        None => Err(StoreError::NotFound),
    }
}

} // verus!
