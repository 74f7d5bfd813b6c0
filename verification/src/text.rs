//! Text normalization applied to client-supplied names and titles.

use vstd::prelude::*;

verus! {

/// The text with leading and trailing whitespace removed, as `str::trim`
/// defines whitespace.
pub uninterp spec fn trimmed(s: Seq<char>) -> Seq<char>;

/// Removes leading and trailing whitespace.
///
/// Relies on `str::trim`, a deterministic function of the text alone; its
/// documentation says the result is a subslice, so it cannot grow.
#[verifier::external_body]
pub fn trim_text(s: &str) -> (r: String)
    ensures
        r@ == trimmed(s@),
        r@.len() <= s@.len(),
{
    s.trim().to_string()
}

} // verus!
