//! Generation of browser identifiers.

use vstd::prelude::*;

verus! {

/// Relies on `cuid2::create_id`: a freshly generated, collision-resistant
/// identifier. Nothing is assumed about its value; callers that need
/// freshness within the registry check it there.
#[verifier::external_body]
pub(crate) fn fresh_id() -> (r: String) {
    cuid2::create_id()
}

} // verus!
