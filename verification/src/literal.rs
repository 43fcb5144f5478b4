//! Literal values: JSON documents, held as `serde_json::Value` and only
//! ever compared and copied.

use serde_json::Value;
use vstd::prelude::*;

verus! {

/// `serde_json::Value`, carried through without looking inside.
#[verifier::external_type_specification]
#[verifier::external_body]
pub struct ExValue(serde_json::Value);

/// `serde_json::Value`'s `==`, which `serde_json` derives: two documents
/// compare equal exactly when they hold the same content, an equivalence
/// relation (its numbers are never NaN). Taken on trust: two values are the
/// same value to this library exactly when `==` says so.
pub assume_specification[ <serde_json::Value as PartialEq>::eq ](a: &Value, b: &Value) -> (r:
    bool)
    ensures
        r == (*a == *b),
;

/// `serde_json::Value`'s `clone`, which `serde_json` derives. Taken on
/// trust: the copy is the same value.
pub assume_specification[ <serde_json::Value as Clone>::clone ](a: &Value) -> (r: Value)
    ensures
        r == *a,
;

} // verus!
