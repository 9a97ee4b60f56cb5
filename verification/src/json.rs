//! JSON values, as far as the tools read them.

use vstd::prelude::*;

verus! {

/// A JSON value of `serde_json`.
#[verifier::external_type_specification]
#[verifier::external_body]
pub struct ExValue(serde_json::Value);

/// The value that `serde_json::from_str` reads from a text; the null value where it
/// refuses the text.
pub uninterp spec fn parsed_value(text: Seq<char>) -> serde_json::Value;

/// The fields of a JSON object that hold strings.
pub uninterp spec fn text_fields(value: serde_json::Value) -> Map<Seq<char>, Seq<char>>;

/// The fields of a JSON object that hold integers from zero up that fit 64 bits.
pub uninterp spec fn count_fields(value: serde_json::Value) -> Map<Seq<char>, u64>;

/// The compact text that `serde_json` writes for a value.
pub uninterp spec fn value_text(value: serde_json::Value) -> Seq<char>;

/// The string in a field of an object, if there is one.
pub open spec fn text_field(value: serde_json::Value, key: Seq<char>) -> Option<Seq<char>> {
    if text_fields(value).contains_key(key) {
        Some(text_fields(value)[key])
    } else {
        None
    }
}

/// The integer in a field of an object, if there is one.
pub open spec fn count_field(value: serde_json::Value, key: Seq<char>) -> Option<u64> {
    if count_fields(value).contains_key(key) {
        Some(count_fields(value)[key])
    } else {
        None
    }
}

/// The view of an optional string slice.
pub open spec fn str_view(s: Option<&str>) -> Option<Seq<char>> {
    match s {
        Some(s) => Some(s@),
        None => None,
    }
}

/// `Clone` of `serde_json::Value` copies the value as it is.
pub assume_specification[ <serde_json::Value as Clone>::clone ](
    value: &serde_json::Value,
) -> (r: serde_json::Value)
    ensures
        r == *value,
;

/// `serde_json::from_str`, with the null value for a text that is no JSON: the result
/// is a function of the text.
#[verifier::external_body]
pub(crate) fn parse_value(text: &str) -> (r: serde_json::Value)
    ensures
        r == parsed_value(text@),
{
    serde_json::from_str(text).unwrap_or_default()
}

/// `Value::as_str` of an object's field: the string that the field holds, and nothing
/// where the value is no object, has no such field, or the field holds no string.
#[verifier::external_body]
pub(crate) fn field_text<'a>(value: &'a serde_json::Value, key: &str) -> (r: Option<&'a str>)
    ensures
        r is Some <==> text_fields(*value).contains_key(key@),
        r matches Some(s) ==> s@ == text_fields(*value)[key@],
{
    value[key].as_str()
}

/// `Value::as_u64` of an object's field: the integer that the field holds, and nothing
/// where the value is no object, has no such field, or the field holds no such integer.
#[verifier::external_body]
pub(crate) fn field_count(value: &serde_json::Value, key: &str) -> (r: Option<u64>)
    ensures
        r is Some <==> count_fields(*value).contains_key(key@),
        r matches Some(n) ==> n == count_fields(*value)[key@],
{
    value[key].as_u64()
}

/// `Value::to_string`: the compact text of a value.
#[verifier::external_body]
pub(crate) fn render_value(value: &serde_json::Value) -> (r: String)
    ensures
        r@ == value_text(*value),
{
    value.to_string()
}

/// A field is read where an object has it, and is absent where it has not.
pub proof fn fields_are_read_where_they_are(value: serde_json::Value, key: Seq<char>)
    ensures
        text_field(value, key) is Some <==> text_fields(value).contains_key(key),
        text_field(value, key) matches Some(text) ==> text == text_fields(value)[key],
        count_field(value, key) is Some <==> count_fields(value).contains_key(key),
        count_field(value, key) matches Some(n) ==> n == count_fields(value)[key],
{
}

} // verus!
