//! JSON objects.
#[allow(unused_imports)]
use crate::order::{in_order, text_leq};
use vstd::prelude::*;

verus! {

/// The JSON value of `serde_json`.
#[verifier::external_type_specification]
#[verifier::external_body]
pub struct ExJsonValue(serde_json::Value);

/// The JSON object of `serde_json`.
#[verifier::external_type_specification]
#[verifier::external_body]
#[verifier::reject_recursive_types(K)]
#[verifier::reject_recursive_types(V)]
pub struct ExJsonObject<K, V>(serde_json::Map<K, V>);

/// The fields of a JSON object: to each name the value's own JSON text.
pub uninterp spec fn json_fields(
    object: serde_json::Map<String, serde_json::Value>,
) -> Map<Seq<char>, Seq<char>>;

/// The fields of the JSON object that a text writes; none if it writes no object.
pub uninterp spec fn json_object(text: Seq<char>) -> Option<Map<Seq<char>, Seq<char>>>;

/// The fields of the JSON object that a text writes, read field by field; none if it
/// writes no object.
pub uninterp spec fn json_map(text: Seq<char>) -> Option<Map<Seq<char>, Seq<char>>>;

/// The JSON text of a string.
pub uninterp spec fn json_string(s: Seq<char>) -> Seq<char>;

/// The string that a JSON text writes; none if it writes another value.
pub uninterp spec fn json_as_str(text: Seq<char>) -> Option<Seq<char>>;

/// The JSON text of an object with these fields.
pub uninterp spec fn json_object_text(fields: Map<Seq<char>, Seq<char>>) -> Seq<char>;

/// The JSON value that a text writes, written again without white space; none if it
/// writes no JSON value.
pub uninterp spec fn json_compact(text: Seq<char>) -> Option<Seq<char>>;

/// The string in the field `name`; none if there is no such field or no string in
/// it.
pub open spec fn json_field_str(fields: Map<Seq<char>, Seq<char>>, name: Seq<char>) -> Option<
    Seq<char>,
> {
    if fields.contains_key(name) {
        json_as_str(fields[name])
    } else {
        None
    }
}

/// The fields of an object that has none.
pub open spec fn no_fields() -> Map<Seq<char>, Seq<char>> {
    Map::empty()
}

/// Whether all fields hold strings.
pub open spec fn all_strings(fields: Map<Seq<char>, Seq<char>>) -> bool {
    forall|k: Seq<char>| #[trigger] fields.contains_key(k) ==> json_as_str(fields[k]) is Some
}

/// The name that `serde_json` reads as the mark of a raw value where it reads any JSON
/// value.
pub open spec fn raw_mark() -> Seq<char> {
    "$serde_json::private::RawValue"@
}

/// `serde_json::from_str` into any value, for a text that writes an object.
#[verifier::external_body]
pub(crate) fn parse_object(text: &str) -> (res: Option<
    serde_json::Map<String, serde_json::Value>,
>)
    ensures
        match res {
            Some(o) => json_object(text@) == Some(json_fields(o)),
            None => json_object(text@) is None,
        },
{
    match serde_json::from_str(text) {
        Ok(serde_json::Value::Object(object)) => Some(object),
        _ => None,
    }
}

/// `serde_json::from_str` into an object: no name in it has a meaning of its own.
#[verifier::external_body]
pub(crate) fn parse_map(text: &str) -> (res: Option<serde_json::Map<String, serde_json::Value>>)
    ensures
        match res {
            Some(o) => json_map(text@) == Some(json_fields(o)),
            None => json_map(text@) is None,
        },
{
    serde_json::from_str(text).ok()
}

/// `serde_json::Map::new`: an object without fields.
#[verifier::external_body]
pub(crate) fn empty_object() -> (res: serde_json::Map<String, serde_json::Value>)
    ensures
        json_fields(res) == no_fields(),
{
    serde_json::Map::new()
}

/// `serde_json::Map::insert` of a string: the field holds the string, and all other
/// fields stay.
#[verifier::external_body]
pub(crate) fn set_field(
    object: &mut serde_json::Map<String, serde_json::Value>,
    name: &str,
    value: &str,
)
    ensures
        json_fields(*final(object)) == json_fields(*old(object)).insert(name@, json_string(value@)),
        json_as_str(json_fields(*final(object))[name@]) == Some(value@),
{
    object.insert(name.to_string(), serde_json::Value::String(value.to_string()));
}

/// `serde_json::Map::remove`: the field is gone, and all other fields stay.
#[verifier::external_body]
pub(crate) fn remove_field(object: &mut serde_json::Map<String, serde_json::Value>, name: &str)
    ensures
        json_fields(*final(object)) == json_fields(*old(object)).remove(name@),
{
    object.remove(name);
}

/// `serde_json::Map::get` and `serde_json::Value::as_str`: the string in a field.
#[verifier::external_body]
pub(crate) fn field_str(
    object: &serde_json::Map<String, serde_json::Value>,
    name: &str,
) -> (res: Option<String>)
    ensures
        res.deep_view() == if json_fields(*object).contains_key(name@) {
            json_as_str(json_fields(*object)[name@])
        } else {
            None
        },
{
    object.get(name).and_then(|v| v.as_str()).map(str::to_string)
}

/// The names of the fields of an object and their strings, one after the other in
/// the order of the names.
pub open spec fn field_seq(fields: Map<Seq<char>, Seq<char>>) -> Seq<
    (Seq<char>, Option<Seq<char>>),
> {
    in_order(fields.dom().to_seq(), |a: Seq<char>, b: Seq<char>| text_leq(a, b)).map_values(
        |k: Seq<char>| (k, json_as_str(fields[k])),
    )
}

/// A list of names and strings as character sequences.
pub open spec fn field_views(list: Seq<(String, Option<String>)>) -> Seq<
    (Seq<char>, Option<Seq<char>>),
> {
    list.map_values(|p: (String, Option<String>)| (p.0@, p.1.deep_view()))
}

/// `serde_json::Map::iter` and `serde_json::Value::as_str`: each field once, in the
/// order of the names, with its string.
#[verifier::external_body]
pub(crate) fn field_list(object: &serde_json::Map<String, serde_json::Value>) -> (res: Vec<
    (String, Option<String>),
>)
    ensures
        field_views(res@) == field_seq(json_fields(*object)),
{
    object.iter().map(|(k, v)| (k.clone(), v.as_str().map(str::to_string))).collect()
}

/// `serde_json::to_string` of an object: the text depends on the fields alone. Where all
/// of them are strings, reading it as an object gives the fields back, and so does
/// reading it as any value unless a field is named like the mark of a raw value.
#[verifier::external_body]
pub(crate) fn object_text(object: &serde_json::Map<String, serde_json::Value>) -> (res: String)
    ensures
        res@ == json_object_text(json_fields(*object)),
        all_strings(json_fields(*object)) ==> json_map(res@) == Some(json_fields(*object)),
        all_strings(json_fields(*object)) && !json_fields(*object).contains_key(raw_mark())
            ==> json_object(res@) == Some(json_fields(*object)),
{
    serde_json::to_string(object).unwrap()
}

/// `serde_json::from_str` into any value, and the value's own text.
#[verifier::external_body]
pub(crate) fn compact_text(text: &str) -> (res: Option<String>)
    ensures
        res.deep_view() == json_compact(text@),
{
    serde_json::from_str::<serde_json::Value>(text).ok().map(|v| v.to_string())
}

} // verus!
