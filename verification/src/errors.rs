//! The errors that suppliers and lookups report.

use vstd::prelude::*;

verus! {

/// Everything that can go wrong when a supplier is looked up or queried.
///
/// The kinds are flat: each carries at most one free-text detail.
#[derive(Debug, Clone)]
pub enum SupplierError {
    /// The supplier did not answer in time.
    Timeout,
    /// The supplier refused the caller's credentials.
    Unauthorized,
    /// The requested resource, or the supplier itself, does not exist.
    NotFound,
    /// A fault inside the supplier.
    Internal(String),
    /// A fault in a service that the supplier depends on.
    Upstream(String),
    /// The request was malformed.
    InvalidInput(String),
    /// The supplier does not implement the requested operation.
    UnsupportedOperation(String),
}

} // verus!
