//! The messages `serde_json` gives when a JSON value is not what a reader
//! expects, and the decimal text of an integer that `serde_json` reads as a
//! decimal.
use crate::text::{int_text, str_debug_text};
use vstd::prelude::*;

verus! {

/// A JSON value other than a decimal, as far as a message describes it.
pub enum Unexpected {
    Null,
    Bool(bool),
    Unsigned(u64),
    Signed(i64),
    Text(String),
    Array,
    Object,
}

/// How `serde_json` describes an unexpected value.
pub open spec fn unexpected_value_text(u: Unexpected) -> Seq<char> {
    match u {
        Unexpected::Null => "null"@,
        Unexpected::Bool(b) => if b {
            "boolean `true`"@
        } else {
            "boolean `false`"@
        },
        Unexpected::Unsigned(n) => "integer `"@ + int_text(n as int) + "`"@,
        Unexpected::Signed(n) => "integer `"@ + int_text(n as int) + "`"@,
        Unexpected::Text(t) => "string "@ + str_debug_text(t@),
        Unexpected::Array => "sequence"@,
        Unexpected::Object => "map"@,
    }
}

/// The descriptions that `serde`'s readers of strings and of `i64`, `u64`
/// and `u32` give of what they expect. None ends in a position, which
/// `serde_json` would read off the message.
pub open spec fn reader_expectation(expected: Seq<char>) -> bool {
    expected == "a string"@ || expected == "i64"@ || expected == "u64"@ || expected == "u32"@
}

/// Calls `serde::de::Error::invalid_type` for `serde_json::Error` on the
/// corresponding `serde::de::Unexpected` and formats the error with
/// `Display`. For the expectations of `serde`'s own readers, which carry no
/// position, the text is `invalid type: {value}, expected {expected}`,
/// where `serde_json` writes a null as `null` and `serde` writes the other
/// values as stated. Other expectations are not admitted: `serde_json`
/// reads a trailing ` at line L column C` off a message as a position.
#[verifier::external_body]
pub(crate) fn invalid_type_message_of(unexpected: &Unexpected, expected: &str) -> (r: String)
    requires
        reader_expectation(expected@),
    ensures
        r@ == "invalid type: "@ + unexpected_value_text(*unexpected) + ", expected "@ + expected@,
{
    let u = match unexpected {
        Unexpected::Null => serde::de::Unexpected::Unit,
        Unexpected::Bool(b) => serde::de::Unexpected::Bool(*b),
        Unexpected::Unsigned(n) => serde::de::Unexpected::Unsigned(*n),
        Unexpected::Signed(n) => serde::de::Unexpected::Signed(*n),
        Unexpected::Text(t) => serde::de::Unexpected::Str(t.as_str()),
        Unexpected::Array => serde::de::Unexpected::Seq,
        Unexpected::Object => serde::de::Unexpected::Map,
    };
    <serde_json::Error as serde::de::Error>::invalid_type(u, &expected).to_string()
}

/// Calls `serde::de::Error::invalid_value` for `serde_json::Error` on an
/// unsigned integer and formats the error with `Display`: for the
/// expectations of `serde`'s own readers, the text is
/// `invalid value: integer `{n}`, expected {expected}`.
#[verifier::external_body]
pub(crate) fn invalid_unsigned_message(n: u64, expected: &str) -> (r: String)
    requires
        reader_expectation(expected@),
    ensures
        r@ == "invalid value: integer `"@ + int_text(n as int) + "`, expected "@ + expected@,
{
    <serde_json::Error as serde::de::Error>::invalid_value(serde::de::Unexpected::Unsigned(n), &expected).to_string()
}

/// Calls `serde::de::Error::invalid_value` for `serde_json::Error` on a
/// signed integer and formats the error with `Display`: for the
/// expectations of `serde`'s own readers, the text is
/// `invalid value: integer `{n}`, expected {expected}`.
#[verifier::external_body]
pub(crate) fn invalid_signed_message(n: i64, expected: &str) -> (r: String)
    requires
        reader_expectation(expected@),
    ensures
        r@ == "invalid value: integer `"@ + int_text(n as int) + "`, expected "@ + expected@,
{
    <serde_json::Error as serde::de::Error>::invalid_value(serde::de::Unexpected::Signed(n), &expected).to_string()
}

/// What `f64`'s `Display` writes for `serde_json::Number::as_f64` of the
/// non-negative integer `n`, the `f64` nearest to it.
pub uninterp spec fn u64_decimal_text(n: u64) -> Seq<char>;

/// What `f64`'s `Display` writes for `serde_json::Number::as_f64` of the
/// integer `n`, the `f64` nearest to it.
pub uninterp spec fn i64_decimal_text(n: i64) -> Seq<char>;

/// Reads `n` as a decimal with `serde_json::Number::as_f64`, which gives
/// the nearest `f64` for every integer, and formats it with `Display`. The
/// contract names that text.
#[verifier::external_body]
pub(crate) fn u64_decimal_display(n: u64) -> (r: String)
    ensures
        r@ == u64_decimal_text(n),
{
    format!("{}", serde_json::Number::from(n).as_f64().unwrap())
}

/// Reads `n` as a decimal with `serde_json::Number::as_f64`, which gives
/// the nearest `f64` for every integer, and formats it with `Display`. The
/// contract names that text.
#[verifier::external_body]
pub(crate) fn i64_decimal_display(n: i64) -> (r: String)
    ensures
        r@ == i64_decimal_text(n),
{
    format!("{}", serde_json::Number::from(n).as_f64().unwrap())
}

} // verus!
