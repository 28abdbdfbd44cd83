//! JSON documents through `serde_json`: a `serde_json::Value` is seen as a
//! `JsonView`, and each call into `serde_json` has a small trusted function
//! that says what it does to that view.

use vstd::prelude::*;

verus! {

/// A JSON value as the library sees it. A number is kept as the text
/// `serde_json` writes for it; an object maps each key to its value.
pub enum JsonView {
    Null,
    Bool(bool),
    Number(Seq<char>),
    Str(Seq<char>),
    Array(Seq<JsonView>),
    Object(Map<Seq<char>, JsonView>),
}

#[verifier::external_type_specification]
#[verifier::external_body]
pub struct ExValue(serde_json::Value);

/// The view of a `serde_json::Value`.
pub uninterp spec fn json_view(v: serde_json::Value) -> JsonView;

/// The value `serde_json::from_slice` reads from `raw`; `None` when `raw` is
/// not JSON.
pub uninterp spec fn json_parse(raw: Seq<u8>) -> Option<JsonView>;

/// The text `serde_json::to_string_pretty` writes for a value (keys in
/// order, two spaces of indentation).
pub uninterp spec fn json_pretty_text(v: JsonView) -> Seq<char>;

/// The array under `key` of an object, when there is one.
pub open spec fn array_at(v: JsonView, key: Seq<char>) -> Option<Seq<JsonView>> {
    match v {
        JsonView::Object(m) => if m.contains_key(key) {
            match m[key] {
                JsonView::Array(items) => Some(items),
                _ => None,
            }
        } else {
            None
        },
        _ => None,
    }
}

/// Whether a value can take a field: an object, or `null` (which becomes an
/// empty object).
pub open spec fn takes_fields(v: JsonView) -> bool {
    v is Object || v is Null
}

/// The fields of an object; none for anything else.
pub open spec fn fields_of(v: JsonView) -> Map<Seq<char>, JsonView> {
    match v {
        JsonView::Object(m) => m,
        _ => Map::empty(),
    }
}

/// `v` with field `field` of entry `i` of its array `key` set to `value`.
pub open spec fn with_item_field(v: JsonView, key: Seq<char>, i: int, field: Seq<char>, value: JsonView) -> JsonView {
    let items = array_at(v, key).unwrap();
    JsonView::Object(
        fields_of(v).insert(
            key,
            JsonView::Array(items.update(i, JsonView::Object(fields_of(items[i]).insert(field, value)))),
        ),
    )
}

/// An object of the given fields, each later field replacing an earlier one
/// of the same key.
pub open spec fn object_of(fields: Seq<(Seq<char>, JsonView)>) -> Map<Seq<char>, JsonView>
    decreases fields.len(),
{
    if fields.len() == 0 {
        Map::empty()
    } else {
        object_of(fields.drop_last()).insert(fields.last().0, fields.last().1)
    }
}

/// Parses `raw` as JSON (`serde_json::from_slice`).
#[verifier::external_body]
pub(crate) fn parse_json(raw: &[u8]) -> (r: Result<serde_json::Value, ()>)
    ensures
        match r {
            Ok(v) => json_parse(raw@) == Some(json_view(v)),
            Err(()) => json_parse(raw@) is None,
        },
{
    serde_json::from_slice(raw).map_err(|_| ())
}

/// The length of the array under `key` (`Value::get`, `Value::as_array`).
#[verifier::external_body]
pub(crate) fn array_len(v: &serde_json::Value, key: &str) -> (r: Option<usize>)
    ensures
        match r {
            Some(n) => array_at(json_view(*v), key@) matches Some(items) && items.len() == n,
            None => array_at(json_view(*v), key@) is None,
        },
{
    v.get(key).and_then(|a| a.as_array()).map(|a| a.len())
}

/// Whether entry `i` of the array under `key` is an object or `null`.
#[verifier::external_body]
pub(crate) fn item_takes_fields(v: &serde_json::Value, key: &str, i: usize) -> (r: bool)
    requires
        array_at(json_view(*v), key@) matches Some(items) && i < items.len(),
    ensures
        r == takes_fields(array_at(json_view(*v), key@).unwrap()[i as int]),
{
    v[key][i].is_object() || v[key][i].is_null()
}

/// Sets field `field` of entry `i` of the array under `key`
/// (`IndexMut`, which turns a `null` into an object).
#[verifier::external_body]
pub(crate) fn set_item_field(v: &mut serde_json::Value, key: &str, i: usize, field: &str, value: serde_json::Value)
    requires
        array_at(json_view(*old(v)), key@) matches Some(items) && i < items.len() && takes_fields(
            items[i as int],
        ),
    ensures
        json_view(*final(v)) == with_item_field(json_view(*old(v)), key@, i as int, field@, json_view(value)),
{
    v[key][i][field] = value;
}

/// A string value (`Value::String`).
#[verifier::external_body]
pub(crate) fn string_json(s: &str) -> (r: serde_json::Value)
    ensures
        json_view(r) == JsonView::Str(s@),
{
    serde_json::Value::String(s.to_owned())
}

/// An object of string fields (`Value::Object` of a `Map` collected from
/// them).
#[verifier::external_body]
pub(crate) fn object_json(fields: &Vec<(&str, &str)>) -> (r: serde_json::Value)
    ensures
        json_view(r) == JsonView::Object(
            object_of(fields@.map_values(|f: (&str, &str)| (f.0@, JsonView::Str(f.1@)))),
        ),
{
    serde_json::Value::Object(fields.iter().map(|(k, x)| (k.to_string(), serde_json::Value::String(x.to_string()))).collect())
}

/// An array of values (`Value::Array`).
#[verifier::external_body]
pub(crate) fn array_json(items: Vec<serde_json::Value>) -> (r: serde_json::Value)
    ensures
        json_view(r) == JsonView::Array(items@.map_values(|x: serde_json::Value| json_view(x))),
{
    serde_json::Value::Array(items)
}

/// The value written with `serde_json::to_string_pretty`, which does not
/// fail on a `Value` (its keys are strings).
#[verifier::external_body]
pub(crate) fn pretty_json(v: &serde_json::Value) -> (r: String)
    ensures
        r@ == json_pretty_text(json_view(*v)),
{
    serde_json::to_string_pretty(v).unwrap_or_default()
}

} // verus!
