//! The error conditions the library itself can detect.
//!
//! Every one of them is fatal: the run is aborted and the error reported.
//! I/O failures and pattern-compilation failures of the external pattern
//! engine arise outside the library and are wrapped by the caller.

use vstd::prelude::*;

verus! {

/// A fatal error raised by the library's own checks.
#[derive(Debug)]
pub enum GropError {
    /// A malformed configuration string or an inconsistent option
    /// combination; carries a short description or the offending text.
    InvalidArg(String),
    /// A configured field name (merge field, projection field, filter
    /// field, or pattern name to list) that the active record or registry
    /// does not hold; carries the name.
    MissingField(String),
}

} // verus!
