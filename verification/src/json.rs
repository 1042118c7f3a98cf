//! Reading structured values from JSON text. The text is parsed by
//! `serde_json`; what it hands back is turned into a `StructuredValue` here.

use crate::error::ConfigError;
use crate::value::{Json, Mapping, StructuredValue};
use vstd::prelude::*;

verus! {

/// `serde_json::Value`, which is opaque here.
#[verifier::external_type_specification]
#[verifier::external_body]
pub struct ExValue(serde_json::Value);

/// `serde_json::Error`, which is opaque here.
#[verifier::external_type_specification]
#[verifier::external_body]
pub struct ExError(serde_json::Error);

/// What a `serde_json::Value` holds. A number stands as the text that its
/// `Display` gives.
pub uninterp spec fn content(v: serde_json::Value) -> Json;

/// The document that `serde_json` reads from `bytes`: `None` where the bytes
/// are no well-formed JSON document.
pub uninterp spec fn document(bytes: Seq<u8>) -> Option<Json>;

/// `serde_json::from_slice`, read as a `serde_json::Value`: either the value
/// that holds the document of `bytes`, or an error where there is none.
#[verifier::external_body]
fn read_document(bytes: &[u8]) -> (r: Result<serde_json::Value, serde_json::Error>)
    ensures
        match r {
            Ok(v) => document(bytes@) == Some(content(v)),
            Err(_) => document(bytes@) is None,
        },
{
    serde_json::from_slice::<serde_json::Value>(bytes)
}

/// `serde_json::Value::as_bool`: the boolean of a `Bool`, `None` for any
/// other variant.
pub assume_specification[ serde_json::Value::as_bool ](v: &serde_json::Value) -> (r: Option<bool>)
    ensures
        r == (match content(*v) {
            Json::Bool(b) => Some(b),
            _ => None,
        }),
;

/// `serde_json::Value::as_str`: the text of a `String`, `None` for any other
/// variant.
pub assume_specification[ serde_json::Value::as_str ](v: &serde_json::Value) -> (r: Option<&str>)
    ensures
        match content(*v) {
            Json::String(text) => r matches Some(s) && s@ == text,
            _ => r is None,
        },
;

/// `serde_json::Value::as_array`: the items of an `Array` in their order,
/// `None` for any other variant.
pub assume_specification[ serde_json::Value::as_array ](v: &serde_json::Value) -> (r: Option<
    &Vec<serde_json::Value>,
>)
    ensures
        match content(*v) {
            Json::Sequence(items) => r matches Some(held) && held@.len() == items.len() && forall|
                i: int,
            |
                0 <= i < items.len() ==> content(#[trigger] held@[i]) == items[i],
            _ => r is None,
        },
;

/// `Display` of the `serde_json::Number` in a `Number`: its decimal text.
/// `None` for any other variant.
#[verifier::external_body]
fn number_text(v: &serde_json::Value) -> (r: Option<String>)
    ensures
        match content(*v) {
            Json::Number(text) => r matches Some(s) && s@ == text,
            _ => r is None,
        },
{
    match v {
        serde_json::Value::Number(n) => Some(n.to_string()),
        _ => None,
    }
}

/// Whether `entries` are the entries of the mapping `m`, each once.
pub open spec fn holds_entries(
    entries: Seq<(&String, &serde_json::Value)>,
    m: Map<Seq<char>, Json>,
) -> bool {
    &&& forall|i: int, j: int|
        0 <= i < j < entries.len() ==> (#[trigger] entries[i]).0@ != (#[trigger] entries[j]).0@
    &&& forall|i: int|
        0 <= i < entries.len() ==> m.contains_key((#[trigger] entries[i]).0@) && m[entries[i].0@]
            == content(*entries[i].1)
    &&& forall|k: Seq<char>|
        m.contains_key(k) ==> exists|i: int|
            0 <= i < entries.len() && (#[trigger] entries[i]).0@ == k
}

/// `serde_json::Map::iter` over the entries of an `Object`: every entry
/// once, no key twice. `None` for any other variant.
#[verifier::external_body]
fn object_entries(v: &serde_json::Value) -> (r: Option<Vec<(&String, &serde_json::Value)>>)
    ensures
        match content(*v) {
            Json::Mapping(m) => r matches Some(entries) && holds_entries(entries@, m),
            _ => r is None,
        },
{
    match v {
        serde_json::Value::Object(m) => Some(m.iter().collect()),
        _ => None,
    }
}

/// The structured value that a `serde_json::Value` holds.
pub fn from_value(v: &serde_json::Value) -> (r: StructuredValue)
    ensures
        r@ == content(*v),
    decreases content(*v),
{
    let ghost whole = content(*v);
    if let Some(b) = v.as_bool() {
        return StructuredValue::Bool(b);
    }
    if let Some(text) = number_text(v) {
        return StructuredValue::Number(text);
    }
    if let Some(text) = v.as_str() {
        return StructuredValue::String(text.to_owned());
    }
    if let Some(held) = v.as_array() {
        let mut items: Vec<StructuredValue> = Vec::new();
        let mut i: usize = 0;
        while i < held.len()
            invariant
                i <= held@.len(),
                items@.len() == i,
                whole == content(*v),
                whole is Sequence,
                whole->Sequence_0.len() == held@.len(),
                forall|j: int|
                    0 <= j < held@.len() ==> content(#[trigger] held@[j]) == whole->Sequence_0[j],
                forall|j: int| 0 <= j < i ==> (#[trigger] items@[j])@ == whole->Sequence_0[j],
            decreases held@.len() - i,
        {
            assert(decreases_to!(whole => whole->Sequence_0[i as int]));
            let item = from_value(&held[i]);
            items.push(item);
            i += 1;
        }
        let r = StructuredValue::Sequence(items);
        assert(r@->Sequence_0 =~= whole->Sequence_0);
        return r;
    }
    if let Some(entries) = object_entries(v) {
        let mut mapping = Mapping::new();
        let mut i: usize = 0;
        while i < entries.len()
            invariant
                i <= entries@.len(),
                whole == content(*v),
                whole is Mapping,
                holds_entries(entries@, whole->Mapping_0),
                forall|k: Seq<char>|
                    mapping@.contains_key(k) <==> exists|j: int|
                        0 <= j < i && (#[trigger] entries@[j]).0@ == k,
                forall|k: Seq<char>|
                    mapping@.contains_key(k) ==> mapping@[k] == whole->Mapping_0[k],
            decreases entries@.len() - i,
        {
            let key = entries[i].0;
            let held = entries[i].1;
            assert(whole->Mapping_0.contains_key(key@));
            assert(decreases_to!(whole => whole->Mapping_0[key@]));
            let value = from_value(held);
            let ghost before = mapping@;
            mapping.insert(key.clone(), value);
            proof {
                assert forall|k: Seq<char>| mapping@.contains_key(k) implies exists|j: int|
                    0 <= j < i + 1 && (#[trigger] entries@[j]).0@ == k by {
                    if k == key@ {
                        assert(entries@[i as int].0@ == k);
                    } else {
                        assert(before.contains_key(k));
                        let j = choose|j: int| 0 <= j < i && (#[trigger] entries@[j]).0@ == k;
                        assert(entries@[j].0@ == k);
                    }
                }
            }
            i += 1;
        }
        proof {
            assert forall|k: Seq<char>| whole->Mapping_0.contains_key(k) implies mapping@.contains_key(
                k,
            ) by {
                let j = choose|j: int| 0 <= j < entries@.len() && (#[trigger] entries@[j]).0@ == k;
                assert(entries@[j].0@ == k);
            }
            assert(mapping@ =~= whole->Mapping_0);
        }
        return StructuredValue::Mapping(mapping);
    }
    StructuredValue::Null
}

/// Reads one JSON document from `bytes`.
///
/// Succeeds exactly when the bytes are a well-formed document, and then
/// gives the value that the document holds.
pub fn parse(bytes: &[u8]) -> (r: Result<StructuredValue, ConfigError>)
    ensures
        match r {
            Ok(v) => document(bytes@) == Some(v@),
            Err(e) => document(bytes@) is None && e == ConfigError::Parse,
        },
{
    match read_document(bytes) {
        Ok(v) => Ok(from_value(&v)),
        Err(_) => Err(ConfigError::Parse),
    }
}

} // verus!
