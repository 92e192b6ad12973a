//! The JSON codec, `serde_json`, as this library sees it.
//!
//! Verus reads none of that crate. What stands here is believed, not proved:
//! the two types, a name for what each function that the library calls
//! returns, and one wrapper for each function. A parsed value is opaque; the
//! names say only that what the codec gives depends on nothing but what it
//! is given. What a string literal looks like is stated in full.

use crate::decimal::digit_char;
use vstd::prelude::*;
use vstd::string::*;

verus! {

/// A JSON value of any kind.
#[verifier::external_type_specification]
#[verifier::external_body]
pub struct ExValue(serde_json::Value);

/// Why a text is not JSON.
#[verifier::external_type_specification]
#[verifier::external_body]
pub struct ExError(serde_json::Error);

/// What `serde_json::from_str` makes of a text as a `Value`.
pub uninterp spec fn json_parsed(text: Seq<char>) -> Result<serde_json::Value, serde_json::Error>;

/// What `Value::get` finds in a value under a string key.
pub uninterp spec fn json_member(value: serde_json::Value, key: Seq<char>) -> Option<
    serde_json::Value,
>;

/// What `Value::as_str` sees in a value.
pub uninterp spec fn json_text(value: serde_json::Value) -> Option<Seq<char>>;

/// What `Value::as_u64` sees in a value.
pub uninterp spec fn json_unsigned(value: serde_json::Value) -> Option<u64>;

/// What an error of the codec says of itself when it is displayed.
pub uninterp spec fn json_error_text(error: serde_json::Error) -> Seq<char>;

/// `serde_json::from_str` at the type `Value`: the value that a text
/// denotes, or the reason why it denotes none. Claimed: the outcome depends
/// on the text alone.
#[verifier::external_body]
pub(crate) fn parse(text: &str) -> (parsed: Result<serde_json::Value, serde_json::Error>)
    ensures
        parsed == json_parsed(text@),
{
    serde_json::from_str::<serde_json::Value>(text)
}

/// `Value::get` with a string key: the member of an object under that key;
/// none where the value is no object or has no such member. Claimed: the
/// outcome depends on the value and the key alone.
#[verifier::external_body]
pub(crate) fn member<'a>(value: &'a serde_json::Value, key: &str) -> (found: Option<
    &'a serde_json::Value,
>)
    ensures
        match found {
            Some(inner) => json_member(*value, key@) == Some(*inner),
            None => json_member(*value, key@) is None,
        },
{
    value.get(key)
}

/// `Value::as_str`: the text of a value that is a string, none for any other
/// value. Claimed: the outcome depends on the value alone.
#[verifier::external_body]
pub(crate) fn text<'a>(value: &'a serde_json::Value) -> (found: Option<&'a str>)
    ensures
        match found {
            Some(inner) => json_text(*value) == Some(inner@),
            None => json_text(*value) is None,
        },
{
    value.as_str()
}

/// `Value::as_u64`: the number of a value that is an integer from 0 to the
/// largest `u64`, none for any other value. Claimed: the outcome depends on
/// the value alone.
#[verifier::external_body]
pub(crate) fn unsigned(value: &serde_json::Value) -> (found: Option<u64>)
    ensures
        found == json_unsigned(*value),
{
    value.as_u64()
}

/// The `Display` of `serde_json::Error`: what the error says, for a parse
/// error with the line and column at which it was met. Claimed: the text
/// depends on the error alone.
#[verifier::external_body]
pub(crate) fn error_text(error: &serde_json::Error) -> (said: String)
    ensures
        said@ == json_error_text(*error),
{
    format!("{}", error)
}

/// One hexadecimal digit, the letters in lower case.
pub open spec fn hex_char(d: int) -> char {
    if d < 10 {
        digit_char(d)
    } else {
        ((87 + d) as u8) as char
    }
}

/// How a character stands inside a JSON string literal. A quote and a
/// backslash get a backslash before them; backspace, tab, newline, form feed
/// and carriage return are `\b`, `\t`, `\n`, `\f` and `\r`; any other
/// character below the space is `\u00` and its two hexadecimal digits; every
/// other character stands for itself.
pub open spec fn escaped_char(c: char) -> Seq<char> {
    if c == '"' {
        seq!['\\', '"']
    } else if c == '\\' {
        seq!['\\', '\\']
    } else if c == '\u{8}' {
        seq!['\\', 'b']
    } else if c == '\t' {
        seq!['\\', 't']
    } else if c == '\n' {
        seq!['\\', 'n']
    } else if c == '\u{c}' {
        seq!['\\', 'f']
    } else if c == '\r' {
        seq!['\\', 'r']
    } else if (c as u32) < 32 {
        seq!['\\', 'u', '0', '0', hex_char((c as u32) as int / 16), hex_char((c as u32) as int % 16)]
    } else {
        seq![c]
    }
}

/// The characters of a text as they stand inside a JSON string literal.
pub open spec fn escaped_chars(s: Seq<char>) -> Seq<char>
    decreases s.len(),
{
    if s.len() == 0 {
        seq![]
    } else {
        escaped_chars(s.drop_last()) + escaped_char(s.last())
    }
}

/// The JSON string literal of a text: its characters between two quotes.
pub open spec fn json_string(s: Seq<char>) -> Seq<char> {
    seq!['"'] + escaped_chars(s) + seq!['"']
}

/// `serde_json::to_string` on a string slice: the JSON string literal of the
/// text. Claimed: it never fails on a string slice, and the literal is the
/// text between two quotes with the escapes of `escaped_char`, which are
/// those of the crate's escape table.
#[verifier::external_body]
pub(crate) fn quote(text: &str) -> (quoted: Result<String, serde_json::Error>)
    ensures
        quoted is Ok,
        quoted matches Ok(literal) ==> literal@ == json_string(text@),
{
    serde_json::to_string(text)
}

} // verus!
