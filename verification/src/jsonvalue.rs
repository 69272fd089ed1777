//! The JSON boundary.
//!
//! Metadata arrives as JSON text and is decoded by serde_json into its
//! generic `Value` tree.  A `Value` is opaque here: nothing relates it to
//! the bytes it came from, so the loader states its guarantees over the
//! plain rows it extracts, whatever the tree held.  These are the
//! declarations and accessors the loader walks the tree with.

use vstd::prelude::*;

verus! {

/// serde_json's generic JSON tree, declared so it can cross signatures.
#[verifier::external_type_specification]
#[verifier::external_body]
pub struct ExValue(serde_json::Value);

/// Relies on serde_json::from_slice: decodes JSON text into a `Value`
/// tree, or reports the decoding failure as text.
#[verifier::external_body]
pub fn parse_json(bytes: &[u8]) -> (r: Result<serde_json::Value, String>)
{
    serde_json::from_slice::<serde_json::Value>(bytes).map_err(|e| e.to_string())
}

/// Relies on serde_json::Value::as_array: the elements when the value is a
/// JSON array.
pub assume_specification<'a>[ serde_json::Value::as_array ](v: &'a serde_json::Value) -> Option<
    &'a Vec<serde_json::Value>,
>;

/// Relies on serde_json::Value::get: the member under a key or index.
pub assume_specification<'a, I: serde_json::value::Index>[ serde_json::Value::get::<I> ](
    v: &'a serde_json::Value,
    index: I,
) -> Option<&'a serde_json::Value>;

/// Relies on serde_json::Value::as_i64: the value as a signed integer,
/// when it is one.
pub assume_specification[ serde_json::Value::as_i64 ](v: &serde_json::Value) -> Option<i64>;

/// Relies on serde_json::Value::as_u64: the value as an unsigned integer,
/// when it is one.
pub assume_specification[ serde_json::Value::as_u64 ](v: &serde_json::Value) -> Option<u64>;

/// Relies on serde_json::Value::as_bool: the value as a boolean, when it
/// is one.
pub assume_specification[ serde_json::Value::as_bool ](v: &serde_json::Value) -> Option<bool>;

/// Relies on serde_json::Value::as_str: the value as text, when it is
/// text.
pub assume_specification<'a>[ serde_json::Value::as_str ](v: &'a serde_json::Value) -> Option<
    &'a str,
>;

} // verus!
