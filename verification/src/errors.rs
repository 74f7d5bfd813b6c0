//! The failure classes the synchronization engine reports.

use vstd::prelude::*;

verus! {

/// Why an operation was rejected.
///
/// `BadRequest` covers malformed input (an unparsable watermark, a required
/// field that is empty); it is detected before the store is touched.
/// `NotFound` covers references to rows outside the caller's ownership; it is
/// reported uniformly whether or not the row exists for another owner, so that
/// existence is never disclosed across owners. Conflicts are not an error
/// class: they resolve silently by last-writer-wins.
#[derive(Debug, Clone, Copy, PartialEq, Eq, Structural)]
pub enum SyncError {
    BadRequest,
    NotFound,
}

impl SyncError {
    /// A human-readable reason for the failure.
    pub fn message(&self) -> (r: &'static str)
        ensures
            *self == SyncError::BadRequest ==> r@ == "malformed request"@,
            *self == SyncError::NotFound ==> r@ == "resource not found"@,
    {
        match self {
            SyncError::BadRequest => "malformed request",
            SyncError::NotFound => "resource not found",
        }
    }
}

} // verus!
