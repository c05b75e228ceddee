//! What is stored beside the payload of a pending ping, so that the ping
//! can be uploaded later.

use crate::json::{strings_model, Json, JsonModel, ObjectModel};
use crate::ping::{pairs_view, HeaderMap};
use crate::text::views;
use crate::wire::{
    entries_of, json_parse, read_value, value_as_array, value_as_bool, value_as_str, value_entries,
    value_get, value_is_null, value_is_object, value_model, values_model,
};
use vstd::prelude::*;

verus! {

/// What is stored beside the payload of a pending ping.
#[derive(Debug)]
pub struct PingMetadata {
    /// Whether the body holds the info sections.
    pub body_has_info_sections: Option<bool>,
    /// The name of the ping.
    pub ping_name: Option<String>,
    /// The capabilities the uploader must have.
    pub uploader_capabilities: Option<Vec<String>>,
    /// The headers to send with the ping.
    pub headers: Option<HeaderMap>,
}

/// The mathematical value of a [`PingMetadata`]. The headers are a map from
/// names to values: of two headers with one name the later counts.
pub struct MetadataModel {
    pub body_has_info_sections: Option<bool>,
    pub ping_name: Option<Seq<char>>,
    pub uploader_capabilities: Option<Seq<Seq<char>>>,
    pub headers: Option<Map<Seq<char>, Seq<char>>>,
}

/// The map from names to values that a list of headers stands for.
pub open spec fn headers_map(pairs: Seq<(Seq<char>, Seq<char>)>) -> Map<Seq<char>, Seq<char>>
    decreases pairs.len(),
{
    if pairs.len() == 0 {
        Map::empty()
    } else {
        headers_map(pairs.drop_last()).insert(pairs.last().0, pairs.last().1)
    }
}

impl View for PingMetadata {
    type V = MetadataModel;

    open spec fn view(&self) -> MetadataModel {
        MetadataModel {
            body_has_info_sections: self.body_has_info_sections,
            ping_name: match self.ping_name {
                Some(s) => Some(s@),
                None => None,
            },
            uploader_capabilities: match self.uploader_capabilities {
                Some(l) => Some(views(l@)),
                None => None,
            },
            headers: match self.headers {
                Some(h) => Some(headers_map(pairs_view(h@))),
                None => None,
            },
        }
    }
}

/// A map of strings as a JSON object.
pub open spec fn string_map_json(m: Map<Seq<char>, Seq<char>>) -> JsonModel {
    JsonModel::Object(Map::new(|k: Seq<char>| m.dom().contains(k), |k: Seq<char>| JsonModel::String(m[k])))
}

/// A list of strings as a JSON array.
pub open spec fn string_list_json(l: Seq<Seq<char>>) -> JsonModel {
    JsonModel::Array(Seq::new(l.len(), |i: int| JsonModel::String(l[i])))
}

/// The JSON object that stands for a [`PingMetadata`]: one entry for each
/// field, `null` for a field without a value.
pub open spec fn metadata_json(m: MetadataModel) -> JsonModel {
    JsonModel::Object(
        ObjectModel::empty().insert(
            "body_has_info_sections"@,
            match m.body_has_info_sections {
                Some(b) => JsonModel::Bool(b),
                None => JsonModel::Null,
            },
        ).insert(
            "ping_name"@,
            match m.ping_name {
                Some(s) => JsonModel::String(s),
                None => JsonModel::Null,
            },
        ).insert(
            "uploader_capabilities"@,
            match m.uploader_capabilities {
                Some(l) => string_list_json(l),
                None => JsonModel::Null,
            },
        ).insert(
            "headers"@,
            match m.headers {
                Some(h) => string_map_json(h),
                None => JsonModel::Null,
            },
        ),
    )
}

/// The value of a field of an object: nothing where the object has no such
/// key or holds `null` there.
pub open spec fn field_of(m: ObjectModel, key: Seq<char>) -> Option<JsonModel> {
    if m.dom().contains(key) && !(m[key] is Null) {
        Some(m[key])
    } else {
        None
    }
}

/// A field that holds a boolean, if it holds anything. The outer `None`
/// says that the field holds something else.
pub open spec fn bool_field(m: ObjectModel, key: Seq<char>) -> Option<Option<bool>> {
    match field_of(m, key) {
        None => Some(None),
        Some(JsonModel::Bool(b)) => Some(Some(b)),
        Some(_) => None,
    }
}

/// A field that holds a string, if it holds anything.
pub open spec fn string_field(m: ObjectModel, key: Seq<char>) -> Option<Option<Seq<char>>> {
    match field_of(m, key) {
        None => Some(None),
        Some(JsonModel::String(s)) => Some(Some(s)),
        Some(_) => None,
    }
}

/// Every item is a string.
pub open spec fn all_strings(items: Seq<JsonModel>) -> bool {
    forall|i: int| 0 <= i < items.len() ==> (#[trigger] items[i]) is String
}

/// A field that holds a list of strings, if it holds anything.
pub open spec fn list_field(m: ObjectModel, key: Seq<char>) -> Option<Option<Seq<Seq<char>>>> {
    match field_of(m, key) {
        None => Some(None),
        Some(JsonModel::Array(items)) => if all_strings(items) {
            Some(Some(Seq::new(items.len(), |i: int| items[i]->String_0)))
        } else {
            None
        },
        Some(_) => None,
    }
}

/// Every entry of the object is a string.
pub open spec fn all_string_entries(m: ObjectModel) -> bool {
    forall|k: Seq<char>| m.dom().contains(k) ==> (#[trigger] m[k]) is String
}

/// A field that holds an object of strings, if it holds anything.
pub open spec fn map_field(m: ObjectModel, key: Seq<char>) -> Option<Option<Map<Seq<char>, Seq<char>>>> {
    match field_of(m, key) {
        None => Some(None),
        Some(JsonModel::Object(o)) => if all_string_entries(o) {
            Some(Some(Map::new(|k: Seq<char>| o.dom().contains(k), |k: Seq<char>| o[k]->String_0)))
        } else {
            None
        },
        Some(_) => None,
    }
}

/// The metadata that a JSON value stands for: an object whose four fields,
/// where they hold anything but `null`, hold a boolean, a string, a list of
/// strings and an object of strings. Other entries of the object do not
/// count. Any other value stands for no metadata.
pub open spec fn metadata_of(v: JsonModel) -> Option<MetadataModel> {
    match v {
        JsonModel::Object(m) => match (
            bool_field(m, "body_has_info_sections"@),
            string_field(m, "ping_name"@),
            list_field(m, "uploader_capabilities"@),
            map_field(m, "headers"@),
        ) {
            (Some(body_has_info_sections), Some(ping_name), Some(uploader_capabilities), Some(headers)) => Some(
                MetadataModel { body_has_info_sections, ping_name, uploader_capabilities, headers },
            ),
            _ => None,
        },
        _ => None,
    }
}

/// The metadata that a JSON text stands for, if it stands for any.
pub open spec fn metadata_of_text(text: Seq<char>) -> Option<MetadataModel> {
    match json_parse(text) {
        Some(v) => metadata_of(v),
        None => None,
    }
}

/// The JSON object that is written for a metadata stands for that metadata
/// again when it is read.
pub proof fn lemma_metadata_round_trip(m: MetadataModel)
    ensures
        metadata_of(metadata_json(m)) == Some(m),
{
    reveal_strlit("body_has_info_sections");
    reveal_strlit("ping_name");
    reveal_strlit("uploader_capabilities");
    reveal_strlit("headers");
    let a = "body_has_info_sections"@;
    let b = "ping_name"@;
    let c = "uploader_capabilities"@;
    let d = "headers"@;
    assert(a.len() == 22 && b.len() == 9 && c.len() == 21 && d.len() == 7);
    let o = metadata_json(m)->Object_0;
    assert(o.dom().contains(a) && o.dom().contains(b) && o.dom().contains(c) && o.dom().contains(d));
    match m.uploader_capabilities {
        Some(l) => {
            let items = string_list_json(l)->Array_0;
            assert(all_strings(items));
            assert(Seq::new(items.len(), |i: int| items[i]->String_0) =~= l);
        },
        None => {},
    }
    match m.headers {
        Some(h) => {
            let entries = string_map_json(h)->Object_0;
            assert(all_string_entries(entries));
            assert(Map::new(|k: Seq<char>| entries.dom().contains(k), |k: Seq<char>| entries[k]->String_0)
                =~= h);
        },
        None => {},
    }
}

/// The value of a field of an object, if it holds anything but `null`.
fn get_field<'a>(v: &'a serde_json::Value, key: &str) -> (r: Option<&'a serde_json::Value>)
    requires
        value_model(*v) is Object,
    ensures
        match r {
            Some(x) => field_of(value_model(*v)->Object_0, key@) == Some(value_model(*x)),
            None => field_of(value_model(*v)->Object_0, key@) is None,
        },
{
    match value_get(v, key) {
        Some(x) => if value_is_null(x) {
            None
        } else {
            Some(x)
        },
        None => None,
    }
}

/// The strings of a list of values, if all of them are strings.
fn read_strings(items: &Vec<serde_json::Value>) -> (r: Option<Vec<String>>)
    ensures
        match r {
            Some(l) => all_strings(values_model(items@)) && views(l@) == Seq::new(
                items@.len(),
                |i: int| values_model(items@)[i]->String_0,
            ),
            None => !all_strings(values_model(items@)),
        },
{
    let mut out: Vec<String> = Vec::new();
    let mut i: usize = 0;
    while i < items.len()
        invariant
            i <= items@.len(),
            out@.len() == i,
            forall|j: int|
                0 <= j < i ==> (#[trigger] values_model(items@)[j]) is String && out@[j]@
                    == values_model(items@)[j]->String_0,
        decreases items@.len() - i,
    {
        assert(values_model(items@)[i as int] == value_model(items@[i as int]));
        match value_as_str(&items[i]) {
            Some(s) => {
                out.push(s.to_owned());
            },
            None => {
                return None;
            },
        }
        i += 1;
    }
    assert(views(out@) =~= Seq::new(items@.len(), |i: int| values_model(items@)[i]->String_0));
    Some(out)
}

/// The headers that the entries of an object stand for, if all of them are
/// strings.
fn read_headers(v: &serde_json::Value) -> (r: Option<HeaderMap>)
    requires
        value_model(*v) is Object,
    ensures
        match r {
            Some(h) => all_string_entries(value_model(*v)->Object_0) && headers_map(pairs_view(h@))
                == Map::new(
                |k: Seq<char>| value_model(*v)->Object_0.dom().contains(k),
                |k: Seq<char>| value_model(*v)->Object_0[k]->String_0,
            ),
            None => !all_string_entries(value_model(*v)->Object_0),
        },
{
    let ghost m = value_model(*v)->Object_0;
    let entries = value_entries(v);
    let mut out: HeaderMap = Vec::new();
    let mut i: usize = 0;
    assert(pairs_view(out@) =~= Seq::<(Seq<char>, Seq<char>)>::empty());
    while i < entries.len()
        invariant
            i <= entries@.len(),
            m == value_model(*v)->Object_0,
            entries_of(entries@, m),
            out@.len() == i,
            forall|j: int| 0 <= j < i ==> m[(#[trigger] entries@[j]).0@] is String,
            headers_map(pairs_view(out@)) == Map::new(
                |k: Seq<char>| exists|j: int| 0 <= j < i && (#[trigger] entries@[j]).0@ == k,
                |k: Seq<char>| m[k]->String_0,
            ),
        decreases entries@.len() - i,
    {
        let ghost before = pairs_view(out@);
        match value_as_str(entries[i].1) {
            Some(s) => {
                out.push((entries[i].0.clone(), s.to_owned()));
            },
            None => {
                assert(m.dom().contains(entries@[i as int].0@));
                assert(!(m[entries@[i as int].0@] is String));
                return None;
            },
        }
        proof {
            let after = pairs_view(out@);
            assert(after.drop_last() =~= before);
            assert(after.last() == (entries@[i as int].0@, m[entries@[i as int].0@]->String_0));
            assert(headers_map(after) =~= Map::new(
                |k: Seq<char>| exists|j: int| 0 <= j < i + 1 && (#[trigger] entries@[j]).0@ == k,
                |k: Seq<char>| m[k]->String_0,
            ));
        }
        i += 1;
    }
    proof {
        assert forall|k: Seq<char>| m.dom().contains(k) implies (#[trigger] m[k]) is String by {
            let j = choose|j: int| 0 <= j < entries@.len() && (#[trigger] entries@[j]).0@ == k;
            assert(m[entries@[j].0@] is String);
        }
        assert(headers_map(pairs_view(out@)) =~= Map::new(
            |k: Seq<char>| m.dom().contains(k),
            |k: Seq<char>| m[k]->String_0,
        ));
    }
    Some(out)
}

impl PingMetadata {
    /// The JSON object that stands for this metadata.
    pub fn to_json(&self) -> (r: Json)
        ensures
            r@ == metadata_json(self@),
    {
        let mut map = Json::object();
        map.insert(
            "body_has_info_sections".to_owned(),
            match self.body_has_info_sections {
                Some(b) => Json::from_bool(b),
                None => Json::null(),
            },
        );
        map.insert(
            "ping_name".to_owned(),
            match &self.ping_name {
                Some(s) => Json::from_string(s.clone()),
                None => Json::null(),
            },
        );
        map.insert(
            "uploader_capabilities".to_owned(),
            match &self.uploader_capabilities {
                Some(l) => {
                    let j = Json::from_strings(l);
                    assert(strings_model(l@)->Array_0 =~= string_list_json(views(l@))->Array_0);
                    j
                },
                None => Json::null(),
            },
        );
        map.insert(
            "headers".to_owned(),
            match &self.headers {
                Some(h) => headers_json(h),
                None => Json::null(),
            },
        );
        map
    }
}

/// A list of headers as a JSON object.
fn headers_json(headers: &HeaderMap) -> (r: Json)
    ensures
        r@ == string_map_json(headers_map(pairs_view(headers@))),
{
    let mut map = Json::object();
    let mut i: usize = 0;
    assert(pairs_view(headers@).take(0) =~= Seq::<(Seq<char>, Seq<char>)>::empty());
    assert(map@->Object_0 =~= string_map_json(Map::empty())->Object_0);
    while i < headers.len()
        invariant
            i <= headers@.len(),
            map@ == string_map_json(headers_map(pairs_view(headers@).take(i as int))),
        decreases headers@.len() - i,
    {
        proof {
            assert(pairs_view(headers@).take(i + 1).drop_last() =~= pairs_view(headers@).take(i as int));
            assert(pairs_view(headers@).take(i + 1).last() == (headers@[i as int].0@, headers@[i as int].1@));
        }
        map.insert(headers[i].0.clone(), Json::from_string(headers[i].1.clone()));
        assert(map@->Object_0 =~= string_map_json(
            headers_map(pairs_view(headers@).take(i + 1)),
        )->Object_0);
        i += 1;
    }
    assert(pairs_view(headers@).take(headers@.len() as int) =~= pairs_view(headers@));
    map
}

/// Reads the metadata of a pending ping from its JSON text. Gives nothing
/// where the text is no JSON document or stands for no metadata.
pub fn process_metadata(metadata: &str) -> (r: Option<PingMetadata>)
    ensures
        match r {
            Some(m) => metadata_of_text(metadata@) == Some(m@),
            None => metadata_of_text(metadata@) is None,
        },
{
    let v = match read_value(metadata) {
        Some(v) => v,
        None => {
            return None;
        },
    };
    if !value_is_object(&v) {
        return None;
    }
    let ghost m = value_model(v)->Object_0;
    let body_has_info_sections = match get_field(&v, "body_has_info_sections") {
        Some(x) => match value_as_bool(x) {
            Some(b) => Some(b),
            None => {
                return None;
            },
        },
        None => None,
    };
    let ping_name = match get_field(&v, "ping_name") {
        Some(x) => match value_as_str(x) {
            Some(s) => Some(s.to_owned()),
            None => {
                return None;
            },
        },
        None => None,
    };
    let uploader_capabilities = match get_field(&v, "uploader_capabilities") {
        Some(x) => match value_as_array(x) {
            Some(items) => match read_strings(items) {
                Some(l) => {
                    assert(views(l@) =~= list_field(m, "uploader_capabilities"@)->Some_0->Some_0);
                    Some(l)
                },
                None => {
                    return None;
                },
            },
            None => {
                return None;
            },
        },
        None => None,
    };
    let headers = match get_field(&v, "headers") {
        Some(x) => {
            if !value_is_object(x) {
                return None;
            }
            match read_headers(x) {
                Some(h) => Some(h),
                None => {
                    return None;
                },
            }
        },
        None => None,
    };
    Some(PingMetadata { body_has_info_sections, ping_name, uploader_capabilities, headers })
}

} // verus!
