//! Thin doors into serde_json's document model. A parsed JSON value is
//! opaque to the verifier; what the calendar logic reads out of one is
//! carried as plain fields (see `remote`), on which the normalization
//! rules are stated and proved.

use vstd::prelude::*;

verus! {

#[verifier::external_type_specification]
#[verifier::external_body]
pub struct ExJsonValue(serde_json::Value);

/// Relies on serde_json's Value::get: the value under an object key, if
/// the document is an object holding that key.
#[verifier::external_body]
pub fn json_get<'a>(v: &'a serde_json::Value, key: &str) -> Option<&'a serde_json::Value> {
    v.get(key)
}

/// Relies on serde_json's Value::as_str: the text of a JSON string value.
#[verifier::external_body]
pub fn json_as_string(v: &serde_json::Value) -> Option<String> {
    match v.as_str() {
        Some(s) => Some(s.to_string()),
        None => None,
    }
}

/// Relies on serde_json's Value::as_array: the elements of a JSON array
/// value.
#[verifier::external_body]
pub fn json_as_array(v: &serde_json::Value) -> Option<Vec<serde_json::Value>> {
    match v.as_array() {
        Some(a) => Some(a.clone()),
        None => None,
    }
}

} // verus!
