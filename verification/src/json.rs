//! A JSON tree with integer numbers, and the operations that payload assembly
//! needs on it. Every operation is specified over [`JsonModel`], the
//! mathematical value that a tree stands for.

use crate::text::{
    key_lt, key_order, lemma_key_lt_asymmetric, lemma_key_lt_irreflexive, lemma_key_lt_transitive,
    KeyOrder,
};
use vstd::prelude::*;

verus! {

/// The mathematical value of a JSON document.
///
/// `Real` stands for a number that is not an integer; it carries the number's
/// bit pattern. Trees built by this library never hold one.
pub enum JsonModel {
    Null,
    Bool(bool),
    Number(int),
    Real(int),
    String(Seq<char>),
    Array(Seq<JsonModel>),
    Object(Map<Seq<char>, JsonModel>),
}

/// The map type that a JSON object stands for.
pub type ObjectModel = Map<Seq<char>, JsonModel>;

#[derive(Debug)]
enum Node {
    Null,
    Bool(bool),
    Int(i64),
    Str(String),
    Array(Vec<Json>),
    Object(Vec<(String, Json)>),
}

/// A JSON tree. An object holds its entries in ascending order of their
/// keys, each key once.
#[derive(Debug)]
pub struct Json {
    node: Node,
}

/// The keys of `entries` ascend strictly.
spec fn keys_sorted(entries: Seq<(String, Json)>) -> bool {
    forall|i: int, j: int|
        0 <= i < j < entries.len() ==> key_lt(
            (#[trigger] entries[i]).0@,
            (#[trigger] entries[j]).0@,
        )
}

/// Some entry of `entries` has the key `key`.
spec fn has_key(entries: Seq<(String, Json)>, key: Seq<char>) -> bool {
    exists|i: int| 0 <= i < entries.len() && (#[trigger] entries[i]).0@ == key
}

/// The position of an entry with the key `key`, where there is one.
spec fn index_of_key(entries: Seq<(String, Json)>, key: Seq<char>) -> int {
    choose|i: int| 0 <= i < entries.len() && (#[trigger] entries[i]).0@ == key
}

/// `keys` lists the keys of `m` in strictly ascending order.
pub open spec fn is_key_list(keys: Seq<Seq<char>>, m: ObjectModel) -> bool {
    &&& m.dom().finite()
    &&& m.dom().len() == keys.len()
    &&& forall|i: int, j: int| 0 <= i < j < keys.len() ==> key_lt(keys[i], keys[j])
    &&& forall|i: int| 0 <= i < keys.len() ==> m.dom().contains(#[trigger] keys[i])
    &&& forall|k: Seq<char>| m.dom().contains(k) ==> keys.contains(k)
}

/// The keys of `m` in strictly ascending order.
pub open spec fn sorted_keys(m: ObjectModel) -> Seq<Seq<char>> {
    choose|keys: Seq<Seq<char>>| is_key_list(keys, m)
}

/// A map has one list of its keys in strictly ascending order.
pub proof fn lemma_key_list_unique(a: Seq<Seq<char>>, b: Seq<Seq<char>>, m: ObjectModel)
    requires
        is_key_list(a, m),
        is_key_list(b, m),
    ensures
        a == b,
    decreases a.len(),
{
    if a.len() == 0 {
        assert(a =~= b);
    } else {
        let n = a.len() - 1;
        let x = a[n];
        let y = b[n];
        assert(m.dom().contains(x));
        assert(m.dom().contains(y));
        if x != y {
            assert(b.contains(x));
            let j = choose|j: int| 0 <= j < b.len() && b[j] == x;
            assert(key_lt(b[j], b[n]));
            assert(a.contains(y));
            let i = choose|i: int| 0 <= i < a.len() && a[i] == y;
            assert(key_lt(a[i], a[n]));
            lemma_key_lt_asymmetric(x, y);
        }
        let rest = m.remove(x);
        lemma_key_list_rest(a, m);
        lemma_key_list_rest(b, m);
        lemma_key_list_unique(a.drop_last(), b.drop_last(), rest);
        assert(a =~= a.drop_last().push(x));
        assert(b =~= b.drop_last().push(y));
    }
}

/// Without its last key, a key list lists the keys of the map without that
/// key.
pub proof fn lemma_key_list_rest(keys: Seq<Seq<char>>, m: ObjectModel)
    requires
        is_key_list(keys, m),
        keys.len() > 0,
    ensures
        is_key_list(keys.drop_last(), m.remove(keys.last())),
{
    let n = keys.len() - 1;
    let x = keys[n];
    let rest = keys.drop_last();
    let mr = m.remove(x);
    assert(m.dom().contains(x));
    lemma_key_lt_irreflexive(x);
    assert forall|i: int| 0 <= i < rest.len() implies mr.dom().contains(#[trigger] rest[i]) by {
        assert(rest[i] == keys[i]);
        assert(key_lt(keys[i], keys[n]));
        assert(m.dom().contains(keys[i]));
    }
    assert forall|k: Seq<char>| mr.dom().contains(k) implies rest.contains(k) by {
        assert(keys.contains(k));
        let i = choose|i: int| 0 <= i < keys.len() && keys[i] == k;
        assert(rest[i] == k);
    }
    assert forall|i: int, j: int| 0 <= i < j < rest.len() implies key_lt(rest[i], rest[j]) by {
        assert(rest[i] == keys[i] && rest[j] == keys[j]);
    }
}

/// The value of a list of strings as a JSON array.
pub open spec fn strings_model(items: Seq<String>) -> JsonModel {
    JsonModel::Array(Seq::new(items.len(), |i: int| JsonModel::String(items[i]@)))
}

/// The value of a list of trees as a JSON array.
pub open spec fn items_model(items: Seq<Json>) -> JsonModel {
    JsonModel::Array(Seq::new(items.len(), |i: int| items[i]@))
}

impl View for Json {
    type V = JsonModel;

    closed spec fn view(&self) -> JsonModel
        decreases self,
    {
        match self.node {
            Node::Null => JsonModel::Null,
            Node::Bool(b) => JsonModel::Bool(b),
            Node::Int(n) => JsonModel::Number(n as int),
            Node::Str(s) => JsonModel::String(s@),
            Node::Array(items) => JsonModel::Array(
                Seq::new(
                    items@.len(),
                    |i: int|
                        if 0 <= i < items@.len() {
                            items@[i].view()
                        } else {
                            JsonModel::Null
                        },
                ),
            ),
            Node::Object(entries) => JsonModel::Object(
                Map::new(
                    |k: Seq<char>| has_key(entries@, k),
                    |k: Seq<char>|
                        {
                            let i = index_of_key(entries@, k);
                            if 0 <= i < entries@.len() {
                                entries@[i].1.view()
                            } else {
                                JsonModel::Null
                            }
                        },
                ),
            ),
        }
    }
}

/// The map that the entries of an object stand for.
spec fn entries_model(entries: Seq<(String, Json)>) -> ObjectModel {
    Map::new(
        |k: Seq<char>| has_key(entries, k),
        |k: Seq<char>|
            {
                let i = index_of_key(entries, k);
                if 0 <= i < entries.len() {
                    entries[i].1@
                } else {
                    JsonModel::Null
                }
            },
    )
}

/// The keys of the entries, in their order.
spec fn entry_keys(entries: Seq<(String, Json)>) -> Seq<Seq<char>> {
    Seq::new(entries.len(), |i: int| entries[i].0@)
}

/// In a sorted list of entries, the entry at a position is the one that its
/// key finds.
proof fn lemma_model_lookup(entries: Seq<(String, Json)>, i: int)
    requires
        keys_sorted(entries),
        0 <= i < entries.len(),
    ensures
        has_key(entries, entries[i].0@),
        index_of_key(entries, entries[i].0@) == i,
        entries_model(entries).dom().contains(entries[i].0@),
        entries_model(entries)[entries[i].0@] == entries[i].1@,
{
    let k = entries[i].0@;
    let j = index_of_key(entries, k);
    assert(0 <= j < entries.len() && entries[j].0@ == k);
    lemma_key_lt_irreflexive(k);
    if j < i {
        assert(key_lt(entries[j].0@, entries[i].0@));
    } else if i < j {
        assert(key_lt(entries[i].0@, entries[j].0@));
    }
}

/// A sorted list of entries stands for the map `m` if each entry is in `m`
/// and each key of `m` is the key of an entry.
proof fn lemma_model_is(entries: Seq<(String, Json)>, m: ObjectModel)
    requires
        keys_sorted(entries),
        forall|i: int|
            0 <= i < entries.len() ==> m.dom().contains((#[trigger] entries[i]).0@) && m[entries[i].0@]
                == entries[i].1@,
        forall|k: Seq<char>| m.dom().contains(k) ==> has_key(entries, k),
    ensures
        entries_model(entries) == m,
{
    let e = entries_model(entries);
    assert forall|k: Seq<char>| e.dom().contains(k) implies m.dom().contains(k) && e[k] == m[k] by {
        let i = index_of_key(entries, k);
        lemma_model_lookup(entries, i);
    }
    assert(e =~= m);
}

/// A sorted list of entries stands for a finite map with as many keys.
proof fn lemma_model_len(entries: Seq<(String, Json)>)
    requires
        keys_sorted(entries),
    ensures
        is_key_list(entry_keys(entries), entries_model(entries)),
    decreases entries.len(),
{
    let m = entries_model(entries);
    let keys = entry_keys(entries);
    if entries.len() == 0 {
        assert(m.dom() =~= Set::<Seq<char>>::empty());
    } else {
        let rest = entries.drop_last();
        let n = entries.len() - 1;
        let last = entries[n];
        assert forall|i: int, j: int| 0 <= i < j < rest.len() implies key_lt(
            (#[trigger] rest[i]).0@,
            (#[trigger] rest[j]).0@,
        ) by {
            assert(rest[i] == entries[i]);
            assert(rest[j] == entries[j]);
        }
        lemma_model_len(rest);
        let mr = entries_model(rest);
        assert(!mr.dom().contains(last.0@)) by {
            if has_key(rest, last.0@) {
                let i = index_of_key(rest, last.0@);
                assert(rest[i] == entries[i]);
                assert(key_lt(entries[i].0@, entries[n].0@));
                lemma_key_lt_irreflexive(last.0@);
            }
        }
        assert(m.dom() =~= mr.dom().insert(last.0@)) by {
            assert forall|k: Seq<char>| m.dom().contains(k) == mr.dom().insert(last.0@).contains(
                k,
            ) by {
                if has_key(entries, k) {
                    let i = index_of_key(entries, k);
                    if i < rest.len() {
                        assert(rest[i] == entries[i]);
                    }
                }
                if has_key(rest, k) {
                    let i = index_of_key(rest, k);
                    assert(rest[i] == entries[i]);
                }
                if k == last.0@ {
                    assert(entries[n].0@ == k);
                }
            }
        }
    }
    assert forall|i: int| 0 <= i < keys.len() implies m.dom().contains(#[trigger] keys[i]) by {
        lemma_model_lookup(entries, i);
    }
    assert forall|k: Seq<char>| m.dom().contains(k) implies keys.contains(k) by {
        let i = index_of_key(entries, k);
        assert(keys[i] == k);
    }
}

/// Where the key `key` stands among sorted entries, or where it would go.
fn locate(entries: &Vec<(String, Json)>, key: &str) -> (r: (usize, bool))
    requires
        keys_sorted(entries@),
    ensures
        r.0 <= entries@.len(),
        r.1 == has_key(entries@, key@),
        r.1 ==> r.0 < entries@.len() && entries@[r.0 as int].0@ == key@,
        forall|j: int| 0 <= j < r.0 ==> key_lt((#[trigger] entries@[j]).0@, key@),
        !r.1 ==> forall|j: int| r.0 <= j < entries@.len() ==> key_lt(key@, (#[trigger] entries@[j]).0@),
{
    let mut i: usize = 0;
    while i < entries.len()
        invariant
            i <= entries@.len(),
            keys_sorted(entries@),
            forall|j: int| 0 <= j < i ==> key_lt((#[trigger] entries@[j]).0@, key@),
        decreases entries@.len() - i,
    {
        match key_order(entries[i].0.as_str(), key) {
            KeyOrder::Less => {},
            KeyOrder::Equal => {
                return (i, true);
            },
            KeyOrder::Greater => {
                proof {
                    assert forall|j: int| i <= j < entries@.len() implies key_lt(
                        key@,
                        (#[trigger] entries@[j]).0@,
                    ) by {
                        if i < j {
                            assert(key_lt(entries@[i as int].0@, entries@[j].0@));
                            lemma_key_lt_transitive(key@, entries@[i as int].0@, entries@[j].0@);
                        }
                    }
                    lemma_key_lt_irreflexive(key@);
                }
                return (i, false);
            },
        }
        i += 1;
    }
    proof {
        lemma_key_lt_irreflexive(key@);
    }
    (i, false)
}

impl Json {
    #[verifier::type_invariant]
    spec fn inv(self) -> bool {
        match self.node {
            Node::Object(entries) => keys_sorted(entries@),
            _ => true,
        }
    }

    /// The keys of an object in ascending order; empty for any other value.
    pub closed spec fn keys(&self) -> Seq<Seq<char>> {
        match self.node {
            Node::Object(entries) => entry_keys(entries@),
            _ => Seq::empty(),
        }
    }

    proof fn lemma_object_view(self)
        requires
            self.node is Object,
        ensures
            self@ == JsonModel::Object(entries_model(self.node->Object_0@)),
    {
        assert(self@->Object_0 =~= entries_model(self.node->Object_0@));
    }

    proof fn lemma_array_view(self)
        requires
            self.node is Array,
        ensures
            self@ == items_model(self.node->Array_0@),
    {
        assert(self@->Array_0 =~= items_model(self.node->Array_0@)->Array_0);
    }

    /// A tree holds integers only: its value is never a `Real`.
    pub proof fn lemma_never_real(self)
        ensures
            !(self@ is Real),
    {
    }

    /// The JSON value `null`.
    pub fn null() -> (r: Json)
        ensures
            r@ == JsonModel::Null,
    {
        Json { node: Node::Null }
    }

    /// A JSON boolean.
    pub fn from_bool(b: bool) -> (r: Json)
        ensures
            r@ == JsonModel::Bool(b),
    {
        Json { node: Node::Bool(b) }
    }

    /// A JSON integer number.
    pub fn from_i64(n: i64) -> (r: Json)
        ensures
            r@ == JsonModel::Number(n as int),
    {
        Json { node: Node::Int(n) }
    }

    /// A JSON string.
    pub fn from_string(s: String) -> (r: Json)
        ensures
            r@ == JsonModel::String(s@),
    {
        Json { node: Node::Str(s) }
    }

    /// A JSON string with the characters of `s`.
    pub fn from_str(s: &str) -> (r: Json)
        ensures
            r@ == JsonModel::String(s@),
    {
        Json { node: Node::Str(s.to_owned()) }
    }

    /// A JSON array with the given items.
    pub fn from_vec(items: Vec<Json>) -> (r: Json)
        ensures
            r@ == items_model(items@),
    {
        let r = Json { node: Node::Array(items) };
        proof {
            r.lemma_array_view();
        }
        r
    }

    /// A JSON array of strings.
    pub fn from_strings(items: &Vec<String>) -> (r: Json)
        ensures
            r@ == strings_model(items@),
    {
        let mut out: Vec<Json> = Vec::new();
        let mut i: usize = 0;
        while i < items.len()
            invariant
                i <= items@.len(),
                out@.len() == i,
                forall|j: int| 0 <= j < i ==> (#[trigger] out@[j])@ == JsonModel::String(items@[j]@),
            decreases items@.len() - i,
        {
            out.push(Json::from_string(items[i].clone()));
            i += 1;
        }
        let r = Json::from_vec(out);
        assert(r@->Array_0 =~= strings_model(items@)->Array_0);
        r
    }

    /// The empty JSON object.
    pub fn object() -> (r: Json)
        ensures
            r@ == JsonModel::Object(ObjectModel::empty()),
    {
        let r = Json { node: Node::Object(Vec::new()) };
        assert(r@->Object_0 =~= ObjectModel::empty());
        r
    }

    /// Whether this value is `null`.
    pub fn is_null(&self) -> (r: bool)
        ensures
            r == (self@ is Null),
    {
        match &self.node {
            Node::Null => true,
            _ => false,
        }
    }

    /// Whether this value is an object.
    pub fn is_object(&self) -> (r: bool)
        ensures
            r == (self@ is Object),
    {
        match &self.node {
            Node::Object(_) => true,
            _ => false,
        }
    }

    /// The boolean that this value is, if it is one.
    pub fn as_bool(&self) -> (r: Option<bool>)
        ensures
            r == (if self@ is Bool {
                Some(self@->Bool_0)
            } else {
                None
            }),
    {
        match &self.node {
            Node::Bool(b) => Some(*b),
            _ => None,
        }
    }

    /// The integer that this value is, if it is one.
    pub fn as_i64(&self) -> (r: Option<i64>)
        ensures
            match r {
                Some(n) => self@ == JsonModel::Number(n as int),
                None => !(self@ is Number),
            },
    {
        match &self.node {
            Node::Int(n) => Some(*n),
            _ => None,
        }
    }

    /// The string that this value is, if it is one.
    pub fn as_str(&self) -> (r: Option<&str>)
        ensures
            match r {
                Some(s) => self@ == JsonModel::String(s@),
                None => !(self@ is String),
            },
    {
        match &self.node {
            Node::Str(s) => Some(s.as_str()),
            _ => None,
        }
    }

    /// The items of this value, if it is an array.
    pub fn as_array(&self) -> (r: Option<&Vec<Json>>)
        ensures
            match r {
                Some(items) => self@ == items_model(items@),
                None => !(self@ is Array),
            },
    {
        match &self.node {
            Node::Array(items) => {
                proof {
                    self.lemma_array_view();
                }
                Some(items)
            },
            _ => None,
        }
    }

    /// The number of entries of an object; 0 for any other value.
    pub fn len(&self) -> (r: usize)
        ensures
            r == self.keys().len(),
            self@ is Object ==> is_key_list(self.keys(), self@->Object_0) && self.keys() == sorted_keys(
                self@->Object_0,
            ),
            !(self@ is Object) ==> r == 0,
    {
        match &self.node {
            Node::Object(entries) => {
                proof {
                    use_type_invariant(self);
                    self.lemma_object_view();
                    lemma_model_len(entries@);
                    lemma_key_list_unique(
                        entry_keys(entries@),
                        sorted_keys(entries_model(entries@)),
                        entries_model(entries@),
                    );
                }
                entries.len()
            },
            _ => 0,
        }
    }

    /// The key of the entry at position `i` of an object, in ascending order
    /// of the keys.
    pub fn key_at(&self, i: usize) -> (r: &String)
        requires
            i < self.keys().len(),
        ensures
            r@ == self.keys()[i as int],
    {
        match &self.node {
            Node::Object(entries) => &entries[i].0,
            _ => {
                vstd::pervasive::unreached()
            },
        }
    }

    /// The value of the entry at position `i` of an object, in ascending
    /// order of the keys.
    pub fn value_at(&self, i: usize) -> (r: &Json)
        requires
            i < self.keys().len(),
        ensures
            self@ is Object,
            self@->Object_0.dom().contains(self.keys()[i as int]),
            r@ == self@->Object_0[self.keys()[i as int]],
    {
        match &self.node {
            Node::Object(entries) => {
                proof {
                    use_type_invariant(self);
                    self.lemma_object_view();
                    lemma_model_lookup(entries@, i as int);
                }
                &entries[i].1
            },
            _ => {
                vstd::pervasive::unreached()
            },
        }
    }

    /// The value under `key`, if this is an object that has the key.
    pub fn get(&self, key: &str) -> (r: Option<&Json>)
        ensures
            match r {
                Some(v) => self@ is Object && self@->Object_0.dom().contains(key@) && v@
                    == self@->Object_0[key@],
                None => !(self@ is Object && self@->Object_0.dom().contains(key@)),
            },
    {
        match &self.node {
            Node::Object(entries) => {
                proof {
                    use_type_invariant(self);
                    self.lemma_object_view();
                }
                let (i, found) = locate(entries, key);
                if found {
                    proof {
                        lemma_model_lookup(entries@, i as int);
                    }
                    Some(&entries[i].1)
                } else {
                    None
                }
            },
            _ => None,
        }
    }

    /// Whether this is an object that has the key `key`.
    pub fn contains_key(&self, key: &str) -> (r: bool)
        ensures
            r == (self@ is Object && self@->Object_0.dom().contains(key@)),
    {
        self.get(key).is_some()
    }

    /// Sets the value under `key` in an object, replacing the one that was
    /// there.
    pub fn insert(&mut self, key: String, value: Json)
        requires
            old(self)@ is Object,
        ensures
            final(self)@ == JsonModel::Object(old(self)@->Object_0.insert(key@, value@)),
    {
        proof {
            use_type_invariant(&*self);
            self.lemma_object_view();
        }
        let ghost m0 = self@->Object_0;
        let ghost k = key@;
        let ghost v = value@;
        let mut node = Node::Null;
        core::mem::swap(&mut self.node, &mut node);
        match node {
            Node::Object(mut entries) => {
                let ghost old_entries = entries@;
                let (i, found) = locate(&entries, key.as_str());
                if found {
                    entries.set(i, (key, value));
                    proof {
                        let new_entries = entries@;
                        assert forall|a: int, b: int| 0 <= a < b < new_entries.len() implies key_lt(
                            (#[trigger] new_entries[a]).0@,
                            (#[trigger] new_entries[b]).0@,
                        ) by {
                            assert(new_entries[a].0@ == old_entries[a].0@);
                            assert(new_entries[b].0@ == old_entries[b].0@);
                        }
                        assert forall|a: int| 0 <= a < new_entries.len() implies m0.insert(
                            k,
                            v,
                        ).dom().contains((#[trigger] new_entries[a]).0@) && m0.insert(
                            k,
                            v,
                        )[new_entries[a].0@] == new_entries[a].1@ by {
                            lemma_model_lookup(old_entries, a);
                            lemma_model_lookup(old_entries, i as int);
                        }
                        assert forall|x: Seq<char>| m0.insert(k, v).dom().contains(x) implies has_key(
                            new_entries,
                            x,
                        ) by {
                            if x == k {
                                assert(new_entries[i as int].0@ == x);
                            } else {
                                let a = index_of_key(old_entries, x);
                                assert(new_entries[a].0@ == x);
                            }
                        }
                        lemma_model_is(new_entries, m0.insert(k, v));
                    }
                } else {
                    entries.insert(i, (key, value));
                    proof {
                        let new_entries = entries@;
                        let p = i as int;
                        assert forall|a: int, b: int| 0 <= a < b < new_entries.len() implies key_lt(
                            (#[trigger] new_entries[a]).0@,
                            (#[trigger] new_entries[b]).0@,
                        ) by {
                            if b < p {
                                assert(key_lt(old_entries[a].0@, old_entries[b].0@));
                            } else if b == p {
                                assert(key_lt(old_entries[a].0@, k));
                            } else if a < p {
                                assert(key_lt(old_entries[a].0@, old_entries[b - 1].0@));
                            } else if a == p {
                                assert(key_lt(k, old_entries[b - 1].0@));
                            } else {
                                assert(key_lt(old_entries[a - 1].0@, old_entries[b - 1].0@));
                            }
                        }
                        assert forall|a: int| 0 <= a < new_entries.len() implies m0.insert(
                            k,
                            v,
                        ).dom().contains((#[trigger] new_entries[a]).0@) && m0.insert(
                            k,
                            v,
                        )[new_entries[a].0@] == new_entries[a].1@ by {
                            if a < p {
                                lemma_model_lookup(old_entries, a);
                            } else if a > p {
                                lemma_model_lookup(old_entries, a - 1);
                            }
                        }
                        assert forall|x: Seq<char>| m0.insert(k, v).dom().contains(x) implies has_key(
                            new_entries,
                            x,
                        ) by {
                            if x == k {
                                assert(new_entries[p].0@ == x);
                            } else {
                                let a = index_of_key(old_entries, x);
                                if a < p {
                                    assert(new_entries[a].0@ == x);
                                } else {
                                    assert(new_entries[a + 1].0@ == x);
                                }
                            }
                        }
                        lemma_model_is(new_entries, m0.insert(k, v));
                    }
                }
                self.node = Node::Object(entries);
                proof {
                    self.lemma_object_view();
                }
            },
            _ => {
                assert(false);
            },
        }
    }

    /// Takes the value under `key` out of an object. Any other value, or an
    /// object without the key, stays as it is.
    pub fn remove(&mut self, key: &str) -> (r: Option<Json>)
        ensures
            match r {
                Some(v) => old(self)@ is Object && old(self)@->Object_0.dom().contains(key@) && v@
                    == old(self)@->Object_0[key@] && final(self)@ == JsonModel::Object(
                    old(self)@->Object_0.remove(key@),
                ),
                None => !(old(self)@ is Object && old(self)@->Object_0.dom().contains(key@))
                    && final(self)@ == old(self)@,
            },
    {
        proof {
            use_type_invariant(&*self);
        }
        let ghost before = self@;
        let mut node = Node::Null;
        core::mem::swap(&mut self.node, &mut node);
        match node {
            Node::Object(mut entries) => {
                let ghost old_entries = entries@;
                let ghost m0 = entries_model(old_entries);
                assert(before == JsonModel::Object(m0)) by {
                    assert(before->Object_0 =~= m0);
                }
                let (i, found) = locate(&entries, key);
                if found {
                    let removed = entries.remove(i);
                    proof {
                        let new_entries = entries@;
                        let p = i as int;
                        let k = key@;
                        lemma_model_lookup(old_entries, p);
                        assert forall|a: int, b: int| 0 <= a < b < new_entries.len() implies key_lt(
                            (#[trigger] new_entries[a]).0@,
                            (#[trigger] new_entries[b]).0@,
                        ) by {
                            if b < p {
                                assert(key_lt(old_entries[a].0@, old_entries[b].0@));
                            } else if a < p {
                                assert(key_lt(old_entries[a].0@, old_entries[b + 1].0@));
                            } else {
                                assert(key_lt(old_entries[a + 1].0@, old_entries[b + 1].0@));
                            }
                        }
                        lemma_key_lt_irreflexive(k);
                        assert forall|a: int| 0 <= a < new_entries.len() implies m0.remove(
                            k,
                        ).dom().contains((#[trigger] new_entries[a]).0@) && m0.remove(
                            k,
                        )[new_entries[a].0@] == new_entries[a].1@ by {
                            if a < p {
                                lemma_model_lookup(old_entries, a);
                                assert(key_lt(old_entries[a].0@, old_entries[p].0@));
                            } else {
                                lemma_model_lookup(old_entries, a + 1);
                                assert(key_lt(old_entries[p].0@, old_entries[a + 1].0@));
                            }
                        }
                        assert forall|x: Seq<char>| m0.remove(k).dom().contains(x) implies has_key(
                            new_entries,
                            x,
                        ) by {
                            let a = index_of_key(old_entries, x);
                            if a < p {
                                assert(new_entries[a].0@ == x);
                            } else {
                                assert(new_entries[a - 1].0@ == x);
                            }
                        }
                        lemma_model_is(new_entries, m0.remove(k));
                    }
                    self.node = Node::Object(entries);
                    proof {
                        self.lemma_object_view();
                    }
                    Some(removed.1)
                } else {
                    self.node = Node::Object(entries);
                    proof {
                        self.lemma_object_view();
                    }
                    None
                }
            },
            other => {
                self.node = other;
                None
            },
        }
    }

    /// A copy of this tree.
    pub fn duplicate(&self) -> (r: Json)
        ensures
            r@ == self@,
        decreases self,
    {
        match &self.node {
            Node::Null => Json::null(),
            Node::Bool(b) => Json::from_bool(*b),
            Node::Int(n) => Json::from_i64(*n),
            Node::Str(s) => Json::from_string(s.clone()),
            Node::Array(items) => {
                let mut out: Vec<Json> = Vec::new();
                let mut i: usize = 0;
                while i < items.len()
                    invariant
                        i <= items@.len(),
                        out@.len() == i,
                        self.node == Node::Array(*items),
                        forall|j: int| 0 <= j < i ==> (#[trigger] out@[j])@ == items@[j]@,
                    decreases items@.len() - i,
                {
                    proof {
                        vstd::std_specs::vec::axiom_vec_index_decreases(*items, i as int);
                        assert(decreases_to!(self.node => self.node->Array_0));
                        assert(decreases_to!(*self => items[i as int]));
                    }
                    out.push(items[i].duplicate());
                    i += 1;
                }
                let r = Json::from_vec(out);
                proof {
                    self.lemma_array_view();
                    assert(r@->Array_0 =~= self@->Array_0);
                }
                r
            },
            Node::Object(entries) => {
                proof {
                    use_type_invariant(self);
                    self.lemma_object_view();
                }
                let mut out: Vec<(String, Json)> = Vec::new();
                let mut i: usize = 0;
                while i < entries.len()
                    invariant
                        i <= entries@.len(),
                        out@.len() == i,
                        self.node == Node::Object(*entries),
                        forall|j: int|
                            0 <= j < i ==> (#[trigger] out@[j]).0@ == entries@[j].0@ && out@[j].1@
                                == entries@[j].1@,
                    decreases entries@.len() - i,
                {
                    proof {
                        vstd::std_specs::vec::axiom_vec_index_decreases(*entries, i as int);
                        assert(decreases_to!(self.node => self.node->Object_0));
                        assert(decreases_to!(entries[i as int] => entries[i as int].1));
                        assert(decreases_to!(*self => entries[i as int].1));
                    }
                    out.push((entries[i].0.clone(), entries[i].1.duplicate()));
                    i += 1;
                }
                proof {
                    let m = entries_model(entries@);
                    assert forall|a: int, b: int| 0 <= a < b < out@.len() implies key_lt(
                        (#[trigger] out@[a]).0@,
                        (#[trigger] out@[b]).0@,
                    ) by {
                        assert(key_lt(entries@[a].0@, entries@[b].0@));
                    }
                    assert forall|a: int| 0 <= a < out@.len() implies m.dom().contains(
                        (#[trigger] out@[a]).0@,
                    ) && m[out@[a].0@] == out@[a].1@ by {
                        lemma_model_lookup(entries@, a);
                    }
                    assert forall|x: Seq<char>| m.dom().contains(x) implies has_key(out@, x) by {
                        let a = index_of_key(entries@, x);
                        assert(out@[a].0@ == x);
                    }
                    lemma_model_is(out@, m);
                }
                let r = Json { node: Node::Object(out) };
                proof {
                    r.lemma_object_view();
                }
                r
            },
        }
    }
}


/// The value under `key` in `m`, or `null` where `m` has no such key.
pub open spec fn get_or_null(m: ObjectModel, key: Seq<char>) -> JsonModel {
    if m.dom().contains(key) {
        m[key]
    } else {
        JsonModel::Null
    }
}

/// The deep merge of `b` into `a`: where both are objects, each entry of `b`
/// is merged into the entry of `a` with the same key (into `null` where `a`
/// has none), and the other entries of `a` stay; in any other case the result
/// is `b`.
pub open spec fn merge_model(a: JsonModel, b: JsonModel) -> JsonModel
    decreases b,
{
    match (a, b) {
        (JsonModel::Object(ma), JsonModel::Object(mb)) => JsonModel::Object(
            Map::new(
                |k: Seq<char>| ma.dom().contains(k) || mb.dom().contains(k),
                |k: Seq<char>|
                    if mb.dom().contains(k) {
                        merge_model(get_or_null(ma, k), mb[k])
                    } else {
                        ma[k]
                    },
            ),
        ),
        _ => b,
    }
}

/// The keys among the first `n` of `keys`.
pub open spec fn first_keys(keys: Seq<Seq<char>>, n: int) -> Set<Seq<char>> {
    Set::new(|k: Seq<char>| exists|j: int| 0 <= j < n && j < keys.len() && #[trigger] keys[j] == k)
}

/// The first `i + 1` keys are the first `i` keys and the key at position `i`.
pub proof fn lemma_first_keys_step(keys: Seq<Seq<char>>, i: int)
    requires
        0 <= i < keys.len(),
    ensures
        first_keys(keys, i + 1) == first_keys(keys, i).insert(keys[i]),
{
    assert forall|x: Seq<char>| first_keys(keys, i + 1).contains(x) == first_keys(keys, i).insert(
        keys[i],
    ).contains(x) by {
        if first_keys(keys, i).contains(x) {
            let j = choose|j: int| 0 <= j < i && j < keys.len() && keys[j] == x;
            assert(0 <= j < i + 1 && keys[j] == x);
        }
        if x == keys[i] {
            assert(keys[i] == x);
        }
    }
    assert(first_keys(keys, i + 1) =~= first_keys(keys, i).insert(keys[i]));
}

/// All the keys of a key list are the keys of its map.
pub proof fn lemma_first_keys_all(keys: Seq<Seq<char>>, m: ObjectModel)
    requires
        is_key_list(keys, m),
    ensures
        first_keys(keys, keys.len() as int) == m.dom(),
{
    let done = first_keys(keys, keys.len() as int);
    assert forall|x: Seq<char>| done.contains(x) == m.dom().contains(x) by {
        if m.dom().contains(x) {
            assert(keys.contains(x));
            let j = choose|j: int| 0 <= j < keys.len() && keys[j] == x;
            assert(0 <= j < keys.len() && keys[j] == x);
        }
        if done.contains(x) {
            let j = choose|j: int| 0 <= j < keys.len() && j < keys.len() && keys[j] == x;
            assert(m.dom().contains(keys[j]));
        }
    }
    assert(done =~= m.dom());
}

/// The object `ma` after the entries of `mb` with a key in `done` were merged
/// into it.
spec fn merge_partial(ma: ObjectModel, mb: ObjectModel, done: Set<Seq<char>>) -> ObjectModel {
    Map::new(
        |k: Seq<char>| ma.dom().contains(k) || done.contains(k),
        |k: Seq<char>|
            if done.contains(k) {
                merge_model(get_or_null(ma, k), mb[k])
            } else {
                ma[k]
            },
    )
}

impl Json {
    /// Merges `other` into this tree, as [`merge_model`] says.
    pub fn merge(&mut self, other: &Json)
        ensures
            final(self)@ == merge_model(old(self)@, other@),
        decreases other@,
    {
        if self.is_object() && other.is_object() {
            let ghost ma = self@->Object_0;
            let ghost mb = other@->Object_0;
            let ghost keys = other.keys();
            let n = other.len();
            let mut i: usize = 0;
            assert(self@->Object_0 =~= merge_partial(ma, mb, first_keys(keys, 0)));
            while i < n
                invariant
                    i <= n,
                    n == keys.len(),
                    keys == other.keys(),
                    other@ == JsonModel::Object(mb),
                    is_key_list(keys, mb),
                    self@ == JsonModel::Object(merge_partial(ma, mb, first_keys(keys, i as int))),
                decreases n - i,
            {
                let key = other.key_at(i);
                let value = other.value_at(i);
                let ghost k = keys[i as int];
                let ghost done = first_keys(keys, i as int);
                let ghost current = merge_partial(ma, mb, done);
                proof {
                    lemma_key_lt_irreflexive(k);
                    assert(!done.contains(k)) by {
                        if done.contains(k) {
                            let j = choose|j: int| 0 <= j < i && j < keys.len() && keys[j] == k;
                            assert(key_lt(keys[j], keys[i as int]));
                        }
                    }
                    vstd::map::axiom_map_index_decreases_finite(mb, k);
                }
                let mut child = match self.remove(key.as_str()) {
                    Some(c) => c,
                    None => Json::null(),
                };
                assert(child@ == get_or_null(ma, k));
                child.merge(value);
                self.insert(key.clone(), child);
                proof {
                    lemma_first_keys_step(keys, i as int);
                    assert(self@->Object_0 =~= merge_partial(ma, mb, first_keys(keys, i + 1)));
                }
                i += 1;
            }
            proof {
                lemma_first_keys_all(keys, mb);
                assert(merge_partial(ma, mb, mb.dom()) =~= merge_model(
                    JsonModel::Object(ma),
                    JsonModel::Object(mb),
                )->Object_0);
            }
        } else {
            *self = other.duplicate();
        }
    }
}


/// The entries of the object under `key`; none where `m` holds no object
/// there.
pub open spec fn object_at(m: ObjectModel, key: Seq<char>) -> ObjectModel {
    if m.dom().contains(key) && m[key] is Object {
        m[key]->Object_0
    } else {
        ObjectModel::empty()
    }
}

impl Json {
    /// Takes the object under `key` out of this object; gives an empty
    /// object where this object holds no object there.
    pub fn take_object(&mut self, key: &str) -> (r: Json)
        requires
            old(self)@ is Object,
        ensures
            r@ == JsonModel::Object(object_at(old(self)@->Object_0, key@)),
            final(self)@ == JsonModel::Object(old(self)@->Object_0.remove(key@)),
    {
        match self.remove(key) {
            Some(v) => {
                if v.is_object() {
                    v
                } else {
                    Json::object()
                }
            },
            None => {
                assert(self@->Object_0 =~= old(self)@->Object_0.remove(key@));
                Json::object()
            },
        }
    }
}

} // verus!
