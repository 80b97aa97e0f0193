//! The closed set of failure kinds surfaced to the caller.  Any error
//! anywhere in transaction processing aborts the whole transaction before the
//! commit step runs.

use vstd::prelude::*;

use crate::ops::QueryOperation;

verus! {

/// Every way a transaction can fail.
#[derive(Debug, Clone, Copy, PartialEq, Eq, Structural)]
pub enum DBError {
    /// Wrong item shape or parameter type for an operation.
    MalformedQuery,
    /// The named operation was invoked outside its currently permitted set.
    Unavailable(QueryOperation),
    /// A link could not be resolved where a value was required.
    UnresolvedReference,
    /// A dereference chain exceeded the configured depth bound.
    RecursionLimit,
    /// An expected entry was missing during commit or back-track
    /// maintenance: a bug or a corrupted store.
    InternalConsistency,
}

} // verus!
