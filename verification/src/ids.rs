//! Generation of fresh row identifiers.

use vstd::prelude::*;

verus! {

/// Relies on `uuid::Uuid::new_v4` and its `Display` form: a freshly drawn
/// random identifier, rendered as the hyphenated 36-character string. The
/// value is random, so nothing beyond its length is promised; callers must
/// check it against the ids already in use. Should the operating system's
/// randomness source fail, the call aborts rather than returns — an
/// environmental failure, like an allocation failure, that no argument
/// could rule out.
#[verifier::external_body]
pub(crate) fn fresh_id() -> (r: String)
    ensures
        r@.len() == 36,
{
    uuid::Uuid::new_v4().to_string()
}

} // verus!
