//! Small helpers around the storage engine.

use vstd::prelude::*;

verus! {

/// A fresh opaque token for an interactive control.
///
/// Relies on `uuid::Uuid::new_v4` and its `Display` form: a randomly drawn
/// identifier rendered in the hyphenated format.  The value is random, so
/// nothing is promised of it.
#[verifier::external_body]
#[must_use]
pub fn generate_random_custom_uuid() -> (r: String) {
    uuid::Uuid::new_v4().to_string()
}

} // verus!
