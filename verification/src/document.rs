//! Parsed JSON documents, as the parser holds them, and what can be done to
//! them in place.
use crate::double::nearest;
use crate::json::{
    has_key, int_number, put, removed, value_at, well_formed, Entries, JsonView, Number,
};
use opentelemetry_proto::tonic::collector::metrics::v1::ExportMetricsServiceRequest;
use vstd::prelude::*;

verus! {

/// A parsed JSON value.
#[verifier::external_type_specification]
#[verifier::external_body]
pub struct ExValue(serde_json::Value);

/// A parsed JSON object.
#[verifier::external_type_specification]
#[verifier::external_body]
#[verifier::reject_recursive_types(K)]
#[verifier::reject_recursive_types(V)]
pub struct ExMap<K, V>(serde_json::Map<K, V>);

/// Why a text or a value was refused.
#[verifier::external_type_specification]
#[verifier::external_body]
pub struct ExError(serde_json::Error);

/// A decoded export request.
#[verifier::external_type_specification]
#[verifier::external_body]
pub struct ExExportMetricsServiceRequest(ExportMetricsServiceRequest);

/// What a parsed value says.
pub uninterp spec fn json_contents(value: serde_json::Value) -> JsonView;

/// What a parsed object says, its keys in order.
pub uninterp spec fn map_contents(map: serde_json::Map<String, serde_json::Value>) -> Entries;

/// What the JSON text in `bytes` says, where it is one.
pub uninterp spec fn json_document(bytes: Seq<u8>) -> Option<JsonView>;

/// The export request that a JSON value describes, where it does.
pub uninterp spec fn request_document(json: JsonView) -> Option<ExportMetricsServiceRequest>;

/// What the values of a parsed array say.
pub open spec fn all_contents(items: Seq<serde_json::Value>) -> Seq<JsonView> {
    items.map_values(|item: serde_json::Value| json_contents(item))
}

/// The object with `value` under `key` where nothing was.
pub open spec fn defaulted(entries: Entries, key: Seq<char>, value: JsonView) -> Entries {
    if has_key(entries, key) {
        entries
    } else {
        put(entries, key, value)
    }
}

/// `serde_json::from_slice` for a value of any shape: it succeeds on JSON
/// texts, and depends on the bytes alone.
#[verifier::external_body]
pub(crate) fn parse_value(bytes: &[u8]) -> (r: Result<serde_json::Value, serde_json::Error>)
    ensures
        match r {
            Ok(value) => json_document(bytes@) == Some(json_contents(value)),
            Err(_) => json_document(bytes@) is None,
        },
{
    serde_json::from_slice(bytes)
}

/// `serde_json::from_value` for an export request: what comes out depends on
/// what the value says alone.
#[verifier::external_body]
pub(crate) fn read_request(value: serde_json::Value) -> (r: Result<
    ExportMetricsServiceRequest,
    serde_json::Error,
>)
    ensures
        match r {
            Ok(request) => request_document(json_contents(value)) == Some(request),
            Err(_) => request_document(json_contents(value)) is None,
        },
{
    serde_json::from_value(value)
}

/// `serde_json::Value::as_array_mut`: the values of an array, open to change.
pub assume_specification[ serde_json::Value::as_array_mut ](value: &mut serde_json::Value) -> (r:
    Option<&mut Vec<serde_json::Value>>)
    ensures
        match r {
            Some(items) => {
                &&& json_contents(*old(value)) == JsonView::Array(all_contents((*items)@))
                &&& json_contents(*final(value)) == JsonView::Array(all_contents((*final(items))@))
            },
            None => !(json_contents(*old(value)) is Array) && *final(value) == *old(value),
        },
;

/// `serde_json::Value::as_object_mut`: the keys and values of an object, open
/// to change. The keys of every object are in order, all the way down, since the
/// parser holds them in a sorted map.
pub assume_specification[ serde_json::Value::as_object_mut ](value: &mut serde_json::Value) -> (r:
    Option<&mut serde_json::Map<std::string::String, serde_json::Value>>)
    ensures
        match r {
            Some(map) => {
                &&& json_contents(*old(value)) == JsonView::Object(map_contents(*map))
                &&& well_formed(JsonView::Object(map_contents(*map)))
                &&& json_contents(*final(value)) == JsonView::Object(map_contents(*final(map)))
            },
            None => !(json_contents(*old(value)) is Object) && *final(value) == *old(value),
        },
;

/// `serde_json::Value::as_str`: the text of a string.
pub assume_specification[ serde_json::Value::as_str ](value: &serde_json::Value) -> (r: Option<
    &str,
>)
    ensures
        match r {
            Some(text) => json_contents(*value) == JsonView::String(text@),
            None => !(json_contents(*value) is String),
        },
;

/// `serde_json::Value::get_mut` with a key: the value under it in an object,
/// open to change.
#[verifier::external_body]
pub(crate) fn member_mut<'a>(value: &'a mut serde_json::Value, key: &str) -> (r: Option<
    &'a mut serde_json::Value,
>)
    ensures
        match r {
            Some(member) => match json_contents(*old(value)) {
                JsonView::Object(entries) => {
                    &&& value_at(entries, key@) == Some(json_contents(*member))
                    &&& json_contents(*final(value)) == JsonView::Object(
                        put(entries, key@, json_contents(*final(member))),
                    )
                },
                _ => false,
            },
            None => {
                &&& match json_contents(*old(value)) {
                    JsonView::Object(entries) => value_at(entries, key@) is None,
                    _ => true,
                }
                &&& *final(value) == *old(value)
            },
        },
{
    value.get_mut(key)
}

/// `serde_json::Map::new`: an object without keys.
#[verifier::external_body]
pub(crate) fn empty_map() -> (r: serde_json::Map<String, serde_json::Value>)
    ensures
        map_contents(r) == Seq::<(Seq<char>, JsonView)>::empty(),
{
    serde_json::Map::new()
}

/// `serde_json::Map::get`: the value under a key.
#[verifier::external_body]
pub(crate) fn entry_of<'a>(
    map: &'a serde_json::Map<String, serde_json::Value>,
    key: &str,
) -> (r: Option<&'a serde_json::Value>)
    ensures
        match r {
            Some(value) => value_at(map_contents(*map), key@) == Some(json_contents(*value)),
            None => value_at(map_contents(*map), key@) is None,
        },
{
    map.get(key)
}

/// `serde_json::Map::get_mut`: the value under a key, open to change.
#[verifier::external_body]
pub(crate) fn entry_mut<'a>(
    map: &'a mut serde_json::Map<String, serde_json::Value>,
    key: &str,
) -> (r: Option<&'a mut serde_json::Value>)
    ensures
        match r {
            Some(value) => {
                &&& value_at(map_contents(*old(map)), key@) == Some(json_contents(*value))
                &&& map_contents(*final(map)) == put(
                    map_contents(*old(map)),
                    key@,
                    json_contents(*final(value)),
                )
            },
            None => value_at(map_contents(*old(map)), key@) is None && *final(map) == *old(map),
        },
{
    map.get_mut(key)
}

/// `serde_json::Map::contains_key`: whether there is a value under a key.
#[verifier::external_body]
pub(crate) fn entry_exists(
    map: &serde_json::Map<String, serde_json::Value>,
    key: &str,
) -> (r: bool)
    ensures
        r == has_key(map_contents(*map), key@),
{
    map.contains_key(key)
}

/// `serde_json::Map::insert`: puts a value under a key.
#[verifier::external_body]
pub(crate) fn put_entry(
    map: &mut serde_json::Map<String, serde_json::Value>,
    key: String,
    value: serde_json::Value,
)
    ensures
        map_contents(*final(map)) == put(map_contents(*old(map)), key@, json_contents(value)),
{
    map.insert(key, value);
}

/// `serde_json::Map::remove_entry`: takes a key and its value out.
#[verifier::external_body]
pub(crate) fn take_entry(
    map: &mut serde_json::Map<String, serde_json::Value>,
    key: &str,
) -> (r: Option<(String, serde_json::Value)>)
    ensures
        map_contents(*final(map)) == removed(map_contents(*old(map)), key@),
        match r {
            Some((name, value)) => name@ == key@ && value_at(map_contents(*old(map)), key@)
                == Some(json_contents(value)),
            None => value_at(map_contents(*old(map)), key@) is None,
        },
{
    map.remove_entry(key)
}

/// `serde_json::map::Entry::or_insert`: puts a value under a key where there
/// is none.
#[verifier::external_body]
pub(crate) fn default_entry(
    map: &mut serde_json::Map<String, serde_json::Value>,
    key: &str,
    value: serde_json::Value,
)
    ensures
        map_contents(*final(map)) == defaulted(map_contents(*old(map)), key@, json_contents(value)),
{
    map.entry(key).or_insert(value);
}

/// `serde_json::Value::from` on a whole number.
#[verifier::external_body]
pub(crate) fn int_value(n: i64) -> (r: serde_json::Value)
    ensures
        json_contents(r) == JsonView::Number(int_number(n)),
{
    serde_json::Value::from(n)
}

/// `serde_json::Number::from_f64` on a number that a double holds exactly.
#[verifier::external_body]
pub(crate) fn double_value(n: u32) -> (r: serde_json::Value)
    ensures
        json_contents(r) == JsonView::Number(Number::Float(nearest(n as int))),
{
    serde_json::Value::from(serde_json::Number::from_f64(n.into()))
}

/// `serde_json::Value::from` on a text.
#[verifier::external_body]
pub(crate) fn text_value(text: &str) -> (r: serde_json::Value)
    ensures
        json_contents(r) == JsonView::String(text@),
{
    serde_json::Value::from(text)
}

/// `serde_json::Value::Array` on some values.
#[verifier::external_body]
pub(crate) fn array_value(items: Vec<serde_json::Value>) -> (r: serde_json::Value)
    ensures
        json_contents(r) == JsonView::Array(all_contents(items@)),
{
    serde_json::Value::Array(items)
}

/// `serde_json::Value::Object` on an object.
#[verifier::external_body]
pub(crate) fn object_value(map: serde_json::Map<String, serde_json::Value>) -> (r:
    serde_json::Value)
    ensures
        json_contents(r) == JsonView::Object(map_contents(map)),
{
    serde_json::Value::Object(map)
}

} // verus!
