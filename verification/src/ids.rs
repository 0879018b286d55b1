//! Fresh identifier generation.

use vstd::prelude::*;

verus! {

/// Relies on uuid::Uuid::new_v4 and its hyphenated Display form: a freshly
/// drawn random identifier. The value is random, so nothing is promised of
/// it; uniqueness of stored ids is enforced by the access layer, never
/// assumed from the generator.
#[verifier::external_body]
pub fn new_uuid() -> String {
    uuid::Uuid::new_v4().to_string()
}

} // verus!
