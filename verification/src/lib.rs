//! Core of an embedded document database.
//!
//! Values are arbitrarily nested [`item::Item`] trees.  On insertion a tree is
//! flattened into a graph of content-addressable nodes connected by
//! [`link::Link`] references, so that any sub-value can be read, updated or
//! shared without copying its container.  Multi-step queries run inside
//! transactions: all writes are staged in an in-memory buffer and committed to
//! the per-collection stores only after every step has succeeded.

pub mod assoc;
pub mod buffer;
pub mod collection;
pub mod errors;
pub mod item;
pub mod laws;
pub mod link;
pub mod model;
pub mod ops;
pub mod query;
pub mod response;
pub mod semantics;
pub mod storage;
pub mod views;

use vstd::prelude::*;

verus! {

/// Bound on the number of link hops and container descents a single fetch may
/// perform.  Exceeding it turns an unbounded or cyclic dereference chain into
/// a reported error rather than non-termination.
pub const FETCH_DEPTH_LIMIT: u64 = 32;

} // verus!
