//! JSON text. Writing and reading the text is serde_json's work; this module
//! builds serde_json's values from [`Json`] trees and takes them apart again,
//! through small trusted wrappers, and names what the two conversions return.

use crate::json::{
    first_keys, is_key_list, items_model, lemma_first_keys_all, lemma_first_keys_step, Json,
    JsonModel, ObjectModel,
};
use vstd::prelude::*;

verus! {

/// `serde_json::Value`, a JSON value as serde_json holds it. Nothing is known
/// of it but what the wrappers below say of [`value_model`].
#[verifier::external_type_specification]
#[verifier::external_body]
pub struct ExValue(serde_json::Value);

/// `serde_json::Error`, what serde_json returns where it fails. Nothing is
/// read from it.
#[verifier::external_type_specification]
#[verifier::external_body]
pub struct ExError(serde_json::Error);

/// The JSON value that a `serde_json::Value` holds.
pub uninterp spec fn value_model(v: serde_json::Value) -> JsonModel;

/// The text that `serde_json::to_string` writes for a JSON value.
pub uninterp spec fn json_text(m: JsonModel) -> Seq<char>;

/// The JSON value that `serde_json::from_str` reads from a text, or `None`
/// where it rejects the text.
pub uninterp spec fn json_parse(text: Seq<char>) -> Option<JsonModel>;

/// The values that a list of `serde_json::Value`s holds.
pub open spec fn values_model(items: Seq<serde_json::Value>) -> Seq<JsonModel> {
    Seq::new(items.len(), |i: int| value_model(items[i]))
}

/// `serde_json::Value::Null`, the JSON value `null`.
#[verifier::external_body]
fn value_null() -> (v: serde_json::Value)
    ensures
        value_model(v) == JsonModel::Null,
{
    serde_json::Value::Null
}

/// `serde_json::Value::Bool`, a JSON boolean.
#[verifier::external_body]
fn value_bool(b: bool) -> (v: serde_json::Value)
    ensures
        value_model(v) == JsonModel::Bool(b),
{
    serde_json::Value::Bool(b)
}

/// `serde_json::Value::from` on an `i64`, which gives the JSON number with
/// that integer value.
#[verifier::external_body]
fn value_number(n: i64) -> (v: serde_json::Value)
    ensures
        value_model(v) == JsonModel::Number(n as int),
{
    serde_json::Value::from(n)
}

/// `serde_json::Value::String`, a JSON string.
#[verifier::external_body]
fn value_string(s: String) -> (v: serde_json::Value)
    ensures
        value_model(v) == JsonModel::String(s@),
{
    serde_json::Value::String(s)
}

/// `serde_json::Value::Array`, the JSON array of the given items in their
/// order.
#[verifier::external_body]
fn value_array(items: Vec<serde_json::Value>) -> (v: serde_json::Value)
    ensures
        value_model(v) == JsonModel::Array(values_model(items@)),
{
    serde_json::Value::Array(items)
}

/// `serde_json::Value::Object` on `serde_json::Map::new()`, the JSON object
/// without entries.
#[verifier::external_body]
fn value_object() -> (v: serde_json::Value)
    ensures
        value_model(v) == JsonModel::Object(ObjectModel::empty()),
{
    serde_json::Value::Object(serde_json::Map::new())
}

/// `serde_json::Map::insert` on the map of a JSON object: the object then
/// holds `value` under `key`, in place of what it held there, and its other
/// entries as before.
#[verifier::external_body]
fn value_insert(object: &mut serde_json::Value, key: String, value: serde_json::Value)
    requires
        value_model(*old(object)) is Object,
    ensures
        value_model(*final(object)) == JsonModel::Object(
            value_model(*old(object))->Object_0.insert(key@, value_model(value)),
        ),
{
    if let serde_json::Value::Object(map) = object {
        map.insert(key, value);
    }
}

/// `serde_json::to_string` on a `serde_json::Value`. The call succeeds: the
/// serializer fails only where writing to its buffer fails or a key is no
/// string, and here the buffer is a `Vec` and the keys are strings. The text
/// depends on nothing but the JSON value, and it holds no line feed and no
/// carriage return: the text is written without line breaks, and inside
/// strings both characters are written as escapes.
#[verifier::external_body]
fn value_to_string(v: &serde_json::Value) -> (r: Result<String, serde_json::Error>)
    ensures
        r is Ok,
        r matches Ok(s) ==> s@ == json_text(value_model(*v)),
        r matches Ok(s) ==> !s@.contains('\n'),
        r matches Ok(s) ==> !s@.contains('\r'),
{
    serde_json::to_string(v)
}

/// `serde_json::from_str` for a `serde_json::Value`: the value depends on
/// nothing but the text.
#[verifier::external_body]
fn value_from_str(s: &str) -> (r: Result<serde_json::Value, serde_json::Error>)
    ensures
        match r {
            Ok(v) => json_parse(s@) == Some(value_model(v)),
            Err(_) => json_parse(s@) is None,
        },
{
    serde_json::from_str::<serde_json::Value>(s)
}

/// `serde_json::Value::get` with a string index: the value under `key`
/// where the value is an object that has the key, and nothing else.
#[verifier::external_body]
pub(crate) fn value_get<'a>(v: &'a serde_json::Value, key: &str) -> (r: Option<&'a serde_json::Value>)
    ensures
        match r {
            Some(x) => value_model(*v) is Object && value_model(*v)->Object_0.dom().contains(key@)
                && value_model(*x) == value_model(*v)->Object_0[key@],
            None => !(value_model(*v) is Object && value_model(*v)->Object_0.dom().contains(key@)),
        },
{
    v.get(key)
}

/// `serde_json::Value::is_null`: whether the value is `null`.
#[verifier::external_body]
pub(crate) fn value_is_null(v: &serde_json::Value) -> (r: bool)
    ensures
        r == (value_model(*v) is Null),
{
    v.is_null()
}

/// `serde_json::Value::as_bool`: the boolean where the value is one.
#[verifier::external_body]
pub(crate) fn value_as_bool(v: &serde_json::Value) -> (r: Option<bool>)
    ensures
        match r {
            Some(b) => value_model(*v) == JsonModel::Bool(b),
            None => !(value_model(*v) is Bool),
        },
{
    v.as_bool()
}

/// `serde_json::Value::as_str`: the string where the value is one.
#[verifier::external_body]
pub(crate) fn value_as_str<'a>(v: &'a serde_json::Value) -> (r: Option<&'a str>)
    ensures
        match r {
            Some(s) => value_model(*v) == JsonModel::String(s@),
            None => !(value_model(*v) is String),
        },
{
    v.as_str()
}

/// `serde_json::Value::as_array`: the items where the value is an array.
#[verifier::external_body]
pub(crate) fn value_as_array<'a>(v: &'a serde_json::Value) -> (r: Option<&'a Vec<serde_json::Value>>)
    ensures
        match r {
            Some(items) => value_model(*v) == JsonModel::Array(values_model(items@)),
            None => !(value_model(*v) is Array),
        },
{
    v.as_array()
}

/// The entries `entries` are those of the object `m`: each of them stands in
/// `m`, and each key of `m` is the key of one of them.
pub open spec fn entries_of(entries: Seq<(&String, &serde_json::Value)>, m: ObjectModel) -> bool {
    &&& forall|i: int|
        0 <= i < entries.len() ==> m.dom().contains((#[trigger] entries[i]).0@) && m[entries[i].0@]
            == value_model(*entries[i].1)
    &&& forall|k: Seq<char>|
        m.dom().contains(k) ==> exists|i: int| 0 <= i < entries.len() && (#[trigger] entries[i]).0@ == k
}

/// `serde_json::Value::is_object`: whether the value is an object.
#[verifier::external_body]
pub(crate) fn value_is_object(v: &serde_json::Value) -> (r: bool)
    ensures
        r == (value_model(*v) is Object),
{
    v.is_object()
}

/// `serde_json::Value::as_object` and `serde_json::Map::iter`: the entries
/// of an object. Each of them stands in the object, and each key of the
/// object is the key of one of them.
#[verifier::external_body]
pub(crate) fn value_entries<'a>(v: &'a serde_json::Value) -> (r: Vec<(&'a String, &'a serde_json::Value)>)
    requires
        value_model(*v) is Object,
    ensures
        entries_of(r@, value_model(*v)->Object_0),
{
    v.as_object().into_iter().flatten().collect()
}

/// Reads a JSON text into a `serde_json::Value`.
pub(crate) fn read_value(s: &str) -> (r: Option<serde_json::Value>)
    ensures
        match r {
            Some(v) => json_parse(s@) == Some(value_model(v)),
            None => json_parse(s@) is None,
        },
{
    match value_from_str(s) {
        Ok(v) => Some(v),
        Err(_) => None,
    }
}

/// The `serde_json::Value` that holds the same JSON value as `j`.
fn to_value(j: &Json) -> (v: serde_json::Value)
    ensures
        value_model(v) == j@,
    decreases j@,
{
    if j.is_null() {
        return value_null();
    }
    if let Some(b) = j.as_bool() {
        return value_bool(b);
    }
    if let Some(n) = j.as_i64() {
        return value_number(n);
    }
    if let Some(s) = j.as_str() {
        return value_string(s.to_owned());
    }
    if let Some(items) = j.as_array() {
        let mut out: Vec<serde_json::Value> = Vec::new();
        let mut i: usize = 0;
        while i < items.len()
            invariant
                i <= items@.len(),
                out@.len() == i,
                j@ == items_model(items@),
                forall|k: int| 0 <= k < i ==> value_model(#[trigger] out@[k]) == items@[k]@,
            decreases items@.len() - i,
        {
            proof {
                vstd::seq::axiom_seq_index_decreases(j@->Array_0, i as int);
                assert(j@->Array_0[i as int] == items@[i as int]@);
                assert(decreases_to!(j@ => j@->Array_0));
            }
            out.push(to_value(&items[i]));
            i += 1;
        }
        let v = value_array(out);
        assert(values_model(out@) =~= j@->Array_0);
        return v;
    }
    let n = j.len();
    let ghost keys = j.keys();
    let ghost m = j@->Object_0;
    let mut v = value_object();
    proof {
        j.lemma_never_real();
    }
    let mut i: usize = 0;
    assert(value_model(v)->Object_0 =~= m.restrict(first_keys(keys, 0)));
    while i < n
        invariant
            i <= n,
            n == keys.len(),
            keys == j.keys(),
            j@ == JsonModel::Object(m),
            is_key_list(keys, m),
            value_model(v) == JsonModel::Object(m.restrict(first_keys(keys, i as int))),
        decreases n - i,
    {
        let key = j.key_at(i);
        let value = j.value_at(i);
        proof {
            vstd::map::axiom_map_index_decreases_finite(m, keys[i as int]);
            assert(decreases_to!(j@ => m));
        }
        let child = to_value(value);
        value_insert(&mut v, key.clone(), child);
        proof {
            lemma_first_keys_step(keys, i as int);
            let next = first_keys(keys, i + 1);
            assert(value_model(v)->Object_0 =~= m.restrict(next));
        }
        i += 1;
    }
    proof {
        lemma_first_keys_all(keys, m);
        let done = first_keys(keys, n as int);
        assert(m.restrict(done) =~= m);
    }
    v
}

impl Json {
    /// Writes this tree as JSON text. The text is one line: it holds no
    /// line feed and no carriage return.
    pub fn to_text(&self) -> (r: String)
        ensures
            r@ == json_text(self@),
            !r@.contains('\n'),
            !r@.contains('\r'),
    {
        let v = to_value(self);
        match value_to_string(&v) {
            Ok(s) => s,
            Err(_) => vstd::pervasive::unreached(),
        }
    }
}

} // verus!
