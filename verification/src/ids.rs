//! Stable identifiers for rows the client did not name itself.

use vstd::prelude::*;

verus! {

/// A fresh stable identifier for a row whose upsert carried none.
///
/// Relies on `uuid::Uuid::new_v4`, rendered by its `Display` impl in the
/// hyphenated form, which is 36 characters long. The draw is random: nothing
/// relates two calls, and uniqueness is not promised — an upsert that receives
/// a colliding identifier simply takes the update path, as any replayed
/// identifier does.
#[verifier::external_body]
pub fn generate_uuid() -> (r: String)
    ensures
        r@.len() == 36,
{
    uuid::Uuid::new_v4().to_string()
}

} // verus!
