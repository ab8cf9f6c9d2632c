//! Reading and measuring JSON, through serde_json. Nothing of the format is decided here: each
//! function hands a text to the library and gives back what it found there as plain values.

use vstd::prelude::*;

use crate::text;

verus! {

/// A JSON value, carried through as it is.
#[verifier::external_type_specification]
#[verifier::external_body]
pub struct ExValue(serde_json::Value);

/// What `serde_json::from_str` reads as a string in a text: `None` where the text is not one JSON
/// string and nothing else.
pub uninterp spec fn json_string(source: Seq<char>) -> Option<Seq<char>>;

/// What `serde_json::from_str` finds in a text at a JSON pointer: the error's own words where the
/// text is not one JSON value; otherwise `None` where nothing stands there, `Some(None)` where what
/// stands there is not a string, and the string's content where it is.
pub uninterp spec fn json_at(source: Seq<char>, pointer: Seq<char>) -> Result<
    Option<Option<Seq<char>>>,
    Seq<char>,
>;

/// What `serde_json::from_slice` finds in bytes at a JSON pointer, told as [`json_at`] tells it.
pub uninterp spec fn json_in_bytes_at(source: Seq<u8>, pointer: Seq<char>) -> Result<
    Option<Option<Seq<char>>>,
    Seq<char>,
>;

/// What a JSON value holds, as the compact JSON text `serde_json::to_vec` writes of it.
pub uninterp spec fn json_bytes(value: serde_json::Value) -> Seq<u8>;

/// What was found, by its views.
pub open spec fn found(result: Result<Option<Option<String>>, String>) -> Result<
    Option<Option<Seq<char>>>,
    Seq<char>,
> {
    match result {
        Err(error) => Err(error@),
        Ok(None) => Ok(None),
        Ok(Some(None)) => Ok(Some(None)),
        Ok(Some(Some(content))) => Ok(Some(Some(content@))),
    }
}

/// Calls `serde_json::from_str::<String>`. Claimed: whether it reads a string, and which, is settled
/// by the text alone.
#[verifier::external_body]
pub(crate) fn read_string(source: &str) -> (r: Option<String>)
    ensures
        text::opt(r) == json_string(source@),
{
    serde_json::from_str::<String>(source).ok()
}

/// Calls `serde_json::from_str::<Value>`, then `Value::pointer` and `Value::as_str` on what it read.
/// Claimed: what is found, or the error, is settled by the text and the pointer alone.
#[verifier::external_body]
pub(crate) fn read_at(source: &str, pointer: &str) -> (r: Result<Option<Option<String>>, String>)
    ensures
        found(r) == json_at(source@, pointer@),
{
    serde_json::from_str::<serde_json::Value>(source)
        .map(|value| value.pointer(pointer).map(|at| at.as_str().map(str::to_owned)))
        .map_err(|error| error.to_string())
}

/// Calls `serde_json::from_slice::<Value>`, then `Value::pointer` and `Value::as_str` on what it
/// read. Claimed: what is found, or the error, is settled by the bytes and the pointer alone.
#[verifier::external_body]
pub(crate) fn read_bytes_at(source: &[u8], pointer: &str) -> (r: Result<
    Option<Option<String>>,
    String,
>)
    ensures
        found(r) == json_in_bytes_at(source@, pointer@),
{
    serde_json::from_slice::<serde_json::Value>(source)
        .map(|value| value.pointer(pointer).map(|at| at.as_str().map(str::to_owned)))
        .map_err(|error| error.to_string())
}

/// Calls `serde_json::to_vec` on a JSON value. Claimed: it succeeds, as a value's keys are strings and
/// its own serialization refuses nothing, and the bytes are settled by the value alone.
#[verifier::external_body]
pub(crate) fn written(value: &serde_json::Value) -> (r: Result<Vec<u8>, String>)
    ensures
        r is Ok,
        r->Ok_0@ == json_bytes(*value),
{
    serde_json::to_vec(value).map_err(|error| error.to_string())
}

} // verus!
