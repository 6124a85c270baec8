//! The JSON documents Ollama sends, read through `serde_json`.
//!
//! Each read parses a document given as text with `serde_json::from_str` and
//! looks up one value in it with `serde_json::Value::pointer` (a JSON Pointer
//! such as `/message/content`). What the read yields is named as a function of
//! the text and the pointer.

use vstd::prelude::*;

verus! {

/// Whether `serde_json::from_str::<serde_json::Value>` accepts `text` as one JSON document.
pub uninterp spec fn json_accepts(text: Seq<char>) -> bool;

/// The string at `pointer` in the JSON document `text`, as `Value::as_str` reads
/// it; `None` when the text is not JSON or there is no string there.
pub uninterp spec fn json_str_at(text: Seq<char>, pointer: Seq<char>) -> Option<Seq<char>>;

/// The boolean at `pointer` in the JSON document `text`, as `Value::as_bool` reads it.
pub uninterp spec fn json_bool_at(text: Seq<char>, pointer: Seq<char>) -> Option<bool>;

/// The unsigned integer at `pointer` in the JSON document `text`, as
/// `Value::as_u64` reads it.
pub uninterp spec fn json_u64_at(text: Seq<char>, pointer: Seq<char>) -> Option<u64>;

/// The length of the array at `pointer` in the JSON document `text`, as
/// `Value::as_array` reads it.
pub uninterp spec fn json_array_len_at(text: Seq<char>, pointer: Seq<char>) -> Option<usize>;

/// The JSON string literal that `serde_json::to_string` writes for `text`:
/// the text in double quotes, with the characters JSON requires escaped.
pub uninterp spec fn json_quoted(text: Seq<char>) -> Seq<char>;

/// Calls `serde_json::to_string` on a string. Claims that the result is the
/// named literal. Serialising a string writes into a `Vec<u8>`, which cannot
/// fail, so the error arm is never taken.
#[verifier::external_body]
pub(crate) fn quote_json(text: &str) -> (q: String)
    ensures
        q@ == json_quoted(text@),
{
    match serde_json::to_string(text) {
        Ok(q) => q,
        Err(_) => String::new(),
    }
}

/// Calls `serde_json::from_str::<Value>` and says whether it accepted `text`.
/// Claims that the answer is the named acceptance.
#[verifier::external_body]
pub(crate) fn is_json(text: &str) -> (b: bool)
    ensures
        b == json_accepts(text@),
{
    serde_json::from_str::<serde_json::Value>(text).is_ok()
}

/// Parses `text` with `serde_json::from_str::<Value>` and reads the string at
/// `pointer` with `Value::pointer` and `Value::as_str`. Claims that the result
/// is the named read, and that there is none unless the text parsed.
#[verifier::external_body]
pub(crate) fn read_json_str(text: &str, pointer: &str) -> (r: Option<String>)
    ensures
        r.deep_view() == json_str_at(text@, pointer@),
        r is Some ==> json_accepts(text@),
{
    serde_json::from_str::<serde_json::Value>(text).ok().and_then(
        |v| v.pointer(pointer).and_then(serde_json::Value::as_str).map(String::from),
    )
}

/// Parses `text` with `serde_json::from_str::<Value>` and reads the boolean at
/// `pointer` with `Value::pointer` and `Value::as_bool`. Claims that the result
/// is the named read, and that there is none unless the text parsed.
#[verifier::external_body]
pub(crate) fn read_json_bool(text: &str, pointer: &str) -> (r: Option<bool>)
    ensures
        r == json_bool_at(text@, pointer@),
        r is Some ==> json_accepts(text@),
{
    serde_json::from_str::<serde_json::Value>(text).ok().and_then(
        |v| v.pointer(pointer).and_then(serde_json::Value::as_bool),
    )
}

/// Parses `text` with `serde_json::from_str::<Value>` and reads the unsigned
/// integer at `pointer` with `Value::pointer` and `Value::as_u64`. Claims that
/// the result is the named read, and that there is none unless the text parsed.
#[verifier::external_body]
pub(crate) fn read_json_u64(text: &str, pointer: &str) -> (r: Option<u64>)
    ensures
        r == json_u64_at(text@, pointer@),
        r is Some ==> json_accepts(text@),
{
    serde_json::from_str::<serde_json::Value>(text).ok().and_then(
        |v| v.pointer(pointer).and_then(serde_json::Value::as_u64),
    )
}

/// Parses `text` with `serde_json::from_str::<Value>` and reads the length of
/// the array at `pointer` with `Value::pointer` and `Value::as_array`. Claims
/// that the result is the named read, and that there is none unless the text parsed.
#[verifier::external_body]
pub(crate) fn read_json_array_len(text: &str, pointer: &str) -> (r: Option<usize>)
    ensures
        r == json_array_len_at(text@, pointer@),
        r is Some ==> json_accepts(text@),
{
    serde_json::from_str::<serde_json::Value>(text).ok().and_then(
        |v| v.pointer(pointer).and_then(serde_json::Value::as_array).map(Vec::len),
    )
}

} // verus!
