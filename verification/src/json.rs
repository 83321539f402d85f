//! JSON values as the crate sees them.
//!
//! A value is carried through the crate unopened. The only thing the crate
//! ever reads out of one is the text of a JSON string, and the only value it
//! ever builds is a JSON string.

use serde_json::Value;
use vstd::prelude::*;

verus! {

/// The JSON value type of `serde_json`, opaque to verification.
#[verifier::external_type_specification]
#[verifier::external_body]
pub struct ExValue(serde_json::Value);

/// The text that a JSON string holds; `None` for a value of any other kind.
///
/// This is what `serde_json::Value::as_str` returns for the value.
pub uninterp spec fn json_text(value: Value) -> Option<Seq<char>>;

/// `serde_json::Value::as_str`, with the text copied out.
///
/// Trusted: the result is the text of `value` when it is a JSON string and
/// `None` otherwise.
#[verifier::external_body]
pub(crate) fn value_text(value: &Value) -> (r: Option<String>)
    ensures
        match r {
            Some(text) => json_text(*value) == Some(text@),
            None => json_text(*value) is None,
        },
{
    match value.as_str() {
        Some(text) => Some(text.to_owned()),
        None => None,
    }
}

/// `serde_json::Value::String`: the JSON string with the given text.
///
/// Trusted: reading the text of the result gives `text` back.
#[verifier::external_body]
pub(crate) fn text_value(text: String) -> (r: Value)
    ensures
        json_text(r) == Some(text@),
{
    Value::String(text)
}

/// `Clone` of `serde_json::Value`.
///
/// Trusted: the clone is the same value.
pub assume_specification[ <Value as Clone>::clone ](value: &Value) -> (r: Value)
    ensures
        r == *value,
;

} // verus!
