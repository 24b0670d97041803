//! The JSON values that pass through the export, and their text.

use vstd::prelude::*;

verus! {

/// A message is a `serde_json::Value`: it is carried through unread.
#[verifier::external_type_specification]
#[verifier::external_body]
pub struct ExValue(serde_json::Value);

/// The error of `serde_json`, carried through unread.
#[verifier::external_type_specification]
#[verifier::external_body]
pub struct ExJsonError(serde_json::Error);

/// The compact JSON text of a value, in bytes, as `serde_json::to_vec`
/// writes it.
pub uninterp spec fn json_text(value: serde_json::Value) -> Seq<u8>;

/// Calls `serde_json::to_vec`. Trusted: the call succeeds on every value,
/// and the bytes are the JSON text of the value. A `Vec` takes every write,
/// the keys of a value's maps are strings, and a number that is not finite
/// is written as `null`, so none of the causes of failure that
/// `serde_json` names can arise from a `Value`.
#[verifier::external_body]
pub(crate) fn to_json(value: &serde_json::Value) -> (r: Result<Vec<u8>, serde_json::Error>)
    ensures
        r is Ok,
        r matches Ok(bytes) ==> bytes@ == json_text(*value),
{
    serde_json::to_vec(value)
}

/// Calls `to_string` of `serde_json::Error`, which renders the error for a
/// reader. Trusted: nothing is claimed about the text.
#[verifier::external_body]
pub(crate) fn describe(error: &serde_json::Error) -> (text: String)
{
    error.to_string()
}

} // verus!
