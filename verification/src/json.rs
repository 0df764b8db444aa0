//! JSON values are carried through the library unread.
use vstd::prelude::*;

verus! {

#[verifier::external_type_specification]
#[verifier::external_body]
pub struct ExJsonValue(serde_json::Value);

/// `Clone` for JSON values (used by the derived `Clone` of the types that
/// carry one). `serde_json::Value` derives `Clone`, and each of its variants
/// holds values whose `Clone` copies them (`bool`, `Number`, `String`, `Vec`
/// and the map of an object), so the copy equals the original.
pub assume_specification[ <serde_json::Value as Clone>::clone ](v: &serde_json::Value) -> (r:
    serde_json::Value)
    ensures
        r == *v,
;

} // verus!
