//! The error taxonomy of the store: a missing record, an attempted mutation
//! of a built-in entry, a failure of the underlying transactional engine,
//! and a superseded asynchronous computation.

use vstd::prelude::*;

verus! {

#[derive(Clone, Copy, Debug, PartialEq, Eq, Structural)]
pub enum StoreError {
    /// No body or metadata is stored for the given identifier.
    NotFound,
    /// The identifier names a built-in entry, which rejects mutation.
    PermissionDenied,
    /// The transactional engine reported an I/O or corruption error.
    Storage,
    /// A superseding computation replaced this one; non-fatal.
    Cancelled,
}

} // verus!
