//! The metric store: values recorded under a lifetime, a store name and a
//! metric identifier, and the snapshot of a store as a JSON tree.

use crate::json::{object_at, strings_model, Json, JsonModel, ObjectModel};
use crate::text::{concat, copy_strings, split_once, split_once_text, str_eq, views};
use crate::time::{get_iso_time_string, iso_time_text, Datetime, TimeUnit};
use vstd::prelude::*;

verus! {

/// How long a recorded value is kept.
#[derive(Clone, Copy, Debug, PartialEq, Eq, Structural)]
pub enum Lifetime {
    /// Until the store is read for a ping.
    Ping,
    /// Until the application ends.
    Application,
    /// Until storage is reset.
    User,
}

/// A recorded value.
#[derive(Debug)]
pub enum Metric {
    Boolean(bool),
    Counter(i32),
    Quantity(i64),
    String(String),
    StringList(Vec<String>),
    Datetime(Datetime, TimeUnit),
}

/// The mathematical value of a [`Metric`].
pub enum MetricModel {
    Boolean(bool),
    Counter(int),
    Quantity(int),
    String(Seq<char>),
    StringList(Seq<Seq<char>>),
    Datetime(Datetime, TimeUnit),
}

impl View for Metric {
    type V = MetricModel;

    open spec fn view(&self) -> MetricModel {
        match self {
            Metric::Boolean(b) => MetricModel::Boolean(*b),
            Metric::Counter(n) => MetricModel::Counter(*n as int),
            Metric::Quantity(n) => MetricModel::Quantity(*n as int),
            Metric::String(s) => MetricModel::String(s@),
            Metric::StringList(l) => MetricModel::StringList(views(l@)),
            Metric::Datetime(t, unit) => MetricModel::Datetime(*t, *unit),
        }
    }
}

/// The section of a snapshot that holds values of this kind.
pub open spec fn section_name(value: MetricModel) -> Seq<char> {
    match value {
        MetricModel::Boolean(_) => "boolean"@,
        MetricModel::Counter(_) => "counter"@,
        MetricModel::Quantity(_) => "quantity"@,
        MetricModel::String(_) => "string"@,
        MetricModel::StringList(_) => "string_list"@,
        MetricModel::Datetime(_, _) => "datetime"@,
    }
}

/// A recorded value as it stands in a snapshot.
pub open spec fn metric_json(value: MetricModel) -> JsonModel {
    match value {
        MetricModel::Boolean(b) => JsonModel::Bool(b),
        MetricModel::Counter(n) => JsonModel::Number(n),
        MetricModel::Quantity(n) => JsonModel::Number(n),
        MetricModel::String(s) => JsonModel::String(s),
        MetricModel::StringList(l) => JsonModel::Array(
            Seq::new(l.len(), |i: int| JsonModel::String(l[i])),
        ),
        MetricModel::Datetime(t, unit) => JsonModel::String(iso_time_text(t, unit)),
    }
}

impl Metric {
    /// A copy of this value.
    pub fn duplicate(&self) -> (r: Metric)
        ensures
            r@ == self@,
    {
        match self {
            Metric::Boolean(b) => Metric::Boolean(*b),
            Metric::Counter(n) => Metric::Counter(*n),
            Metric::Quantity(n) => Metric::Quantity(*n),
            Metric::String(s) => Metric::String(s.clone()),
            Metric::StringList(l) => Metric::StringList(copy_strings(l)),
            Metric::Datetime(t, unit) => Metric::Datetime(*t, *unit),
        }
    }

    /// The section of a snapshot that holds values of this kind.
    pub fn ping_section(&self) -> (r: &'static str)
        ensures
            r@ == section_name(self@),
    {
        match self {
            Metric::Boolean(_) => "boolean",
            Metric::Counter(_) => "counter",
            Metric::Quantity(_) => "quantity",
            Metric::String(_) => "string",
            Metric::StringList(_) => "string_list",
            Metric::Datetime(_, _) => "datetime",
        }
    }

    /// This value as it stands in a snapshot.
    pub fn as_json(&self) -> (r: Json)
        ensures
            r@ == metric_json(self@),
    {
        match self {
            Metric::Boolean(b) => Json::from_bool(*b),
            Metric::Counter(n) => Json::from_i64(*n as i64),
            Metric::Quantity(n) => Json::from_i64(*n),
            Metric::String(s) => Json::from_string(s.clone()),
            Metric::StringList(l) => {
                let r = Json::from_strings(l);
                assert(strings_model(l@)->Array_0 =~= metric_json(self@)->Array_0);
                r
            },
            Metric::Datetime(t, unit) => Json::from_string(get_iso_time_string(*t, *unit)),
        }
    }
}

/// One recorded value with the place it is recorded at.
#[derive(Debug)]
pub struct Record {
    pub lifetime: Lifetime,
    pub store: String,
    pub key: String,
    pub value: Metric,
}

/// The mathematical value of a [`Record`].
pub struct RecordModel {
    pub lifetime: Lifetime,
    pub store: Seq<char>,
    pub key: Seq<char>,
    pub value: MetricModel,
}

impl View for Record {
    type V = RecordModel;

    open spec fn view(&self) -> RecordModel {
        RecordModel {
            lifetime: self.lifetime,
            store: self.store@,
            key: self.key@,
            value: self.value@,
        }
    }
}

/// The records of a database, in the order in which their places were first
/// written to.
pub type Records = Seq<RecordModel>;

/// The record is the one at the given place.
pub open spec fn at_place(r: RecordModel, lifetime: Lifetime, store: Seq<char>, key: Seq<char>) -> bool {
    r.lifetime == lifetime && r.store == store && r.key == key
}

/// Some record is at the given place.
pub open spec fn has_record(records: Records, lifetime: Lifetime, store: Seq<char>, key: Seq<char>) -> bool {
    exists|i: int| 0 <= i < records.len() && at_place(#[trigger] records[i], lifetime, store, key)
}

/// The position `i` holds the first record at the given place.
pub open spec fn is_first_at(
    records: Records,
    lifetime: Lifetime,
    store: Seq<char>,
    key: Seq<char>,
    i: int,
) -> bool {
    &&& 0 <= i < records.len()
    &&& at_place(records[i], lifetime, store, key)
    &&& forall|j: int| 0 <= j < i ==> !at_place(#[trigger] records[j], lifetime, store, key)
}

/// The position of the first record at the given place, where there is one.
pub open spec fn position(records: Records, lifetime: Lifetime, store: Seq<char>, key: Seq<char>) -> int {
    choose|i: int| is_first_at(records, lifetime, store, key, i)
}

/// The value recorded at a place, if there is one.
pub open spec fn lookup(
    records: Records,
    lifetime: Lifetime,
    store: Seq<char>,
    key: Seq<char>,
) -> Option<MetricModel> {
    if has_record(records, lifetime, store, key) {
        Some(records[position(records, lifetime, store, key)].value)
    } else {
        None
    }
}

/// The records after `value` was written to a place: in place of the value
/// that was there, or else as a new last record.
pub open spec fn put_model(
    records: Records,
    lifetime: Lifetime,
    store: Seq<char>,
    key: Seq<char>,
    value: MetricModel,
) -> Records {
    let record = RecordModel { lifetime, store, key, value };
    if has_record(records, lifetime, store, key) {
        records.update(position(records, lifetime, store, key), record)
    } else {
        records.push(record)
    }
}

/// A first record at a place is the one that `position` names.
pub proof fn lemma_position(
    records: Records,
    lifetime: Lifetime,
    store: Seq<char>,
    key: Seq<char>,
    i: int,
)
    requires
        is_first_at(records, lifetime, store, key, i),
    ensures
        has_record(records, lifetime, store, key),
        position(records, lifetime, store, key) == i,
{
    let p = position(records, lifetime, store, key);
    assert(is_first_at(records, lifetime, store, key, p));
    if p < i {
        assert(!at_place(records[p], lifetime, store, key));
    } else if i < p {
        assert(!at_place(records[i], lifetime, store, key));
    }
}

/// Where records are at a place, one of them is the first.
pub proof fn lemma_has_first(records: Records, lifetime: Lifetime, store: Seq<char>, key: Seq<char>)
    requires
        has_record(records, lifetime, store, key),
    ensures
        is_first_at(records, lifetime, store, key, position(records, lifetime, store, key)),
    decreases records.len(),
{
    let w = choose|i: int| 0 <= i < records.len() && at_place(#[trigger] records[i], lifetime, store, key);
    lemma_first_below(records, lifetime, store, key, w);
}

/// Below a record at a place stands a first one.
proof fn lemma_first_below(records: Records, lifetime: Lifetime, store: Seq<char>, key: Seq<char>, w: int)
    requires
        0 <= w < records.len(),
        at_place(records[w], lifetime, store, key),
    ensures
        is_first_at(records, lifetime, store, key, position(records, lifetime, store, key)),
    decreases w,
{
    if exists|j: int| 0 <= j < w && at_place(#[trigger] records[j], lifetime, store, key) {
        let j = choose|j: int| 0 <= j < w && at_place(#[trigger] records[j], lifetime, store, key);
        lemma_first_below(records, lifetime, store, key, j);
    } else {
        assert(is_first_at(records, lifetime, store, key, w));
    }
}

/// A value that was written to a place is the value that is read there.
pub proof fn lemma_put_then_lookup(
    records: Records,
    lifetime: Lifetime,
    store: Seq<char>,
    key: Seq<char>,
    value: MetricModel,
)
    ensures
        lookup(put_model(records, lifetime, store, key, value), lifetime, store, key) == Some(value),
{
    let after = put_model(records, lifetime, store, key, value);
    if has_record(records, lifetime, store, key) {
        lemma_has_first(records, lifetime, store, key);
        let p = position(records, lifetime, store, key);
        assert(is_first_at(after, lifetime, store, key, p)) by {
            assert forall|j: int| 0 <= j < p implies !at_place(#[trigger] after[j], lifetime, store, key) by {
                assert(after[j] == records[j]);
            }
        }
        lemma_position(after, lifetime, store, key, p);
    } else {
        let p = records.len() as int;
        assert(is_first_at(after, lifetime, store, key, p)) by {
            assert forall|j: int| 0 <= j < p implies !at_place(#[trigger] after[j], lifetime, store, key) by {
                assert(after[j] == records[j]);
            }
        }
        lemma_position(after, lifetime, store, key, p);
    }
}

/// Writing to a place changes what is read at no other place.
pub proof fn lemma_put_keeps_others(
    records: Records,
    lifetime: Lifetime,
    store: Seq<char>,
    key: Seq<char>,
    value: MetricModel,
    other_lifetime: Lifetime,
    other_store: Seq<char>,
    other_key: Seq<char>,
)
    requires
        !(other_lifetime == lifetime && other_store == store && other_key == key),
    ensures
        has_record(put_model(records, lifetime, store, key, value), other_lifetime, other_store, other_key)
            == has_record(records, other_lifetime, other_store, other_key),
        lookup(put_model(records, lifetime, store, key, value), other_lifetime, other_store, other_key)
            == lookup(records, other_lifetime, other_store, other_key),
{
    let after = put_model(records, lifetime, store, key, value);
    if has_record(records, lifetime, store, key) {
        lemma_has_first(records, lifetime, store, key);
    }
    assert forall|j: int| 0 <= j < records.len() implies at_place(
        #[trigger] after[j],
        other_lifetime,
        other_store,
        other_key,
    ) == at_place(records[j], other_lifetime, other_store, other_key) by {}
    if has_record(records, other_lifetime, other_store, other_key) {
        lemma_has_first(records, other_lifetime, other_store, other_key);
        let p = position(records, other_lifetime, other_store, other_key);
        assert(is_first_at(after, other_lifetime, other_store, other_key, p));
        lemma_position(after, other_lifetime, other_store, other_key, p);
    } else {
        if has_record(after, other_lifetime, other_store, other_key) {
            let w = choose|i: int|
                0 <= i < after.len() && at_place(#[trigger] after[i], other_lifetime, other_store, other_key);
            if w < records.len() {
                assert(at_place(records[w], other_lifetime, other_store, other_key));
            }
        }
    }
}

/// The metric store.
#[derive(Debug)]
pub struct Database {
    pub records: Vec<Record>,
}

impl View for Database {
    type V = Records;

    open spec fn view(&self) -> Records {
        Seq::new(self.records@.len(), |i: int| self.records@[i]@)
    }
}

impl Database {
    /// A store without records.
    pub fn new() -> (r: Database)
        ensures
            r@ == Records::empty(),
    {
        let r = Database { records: Vec::new() };
        assert(r@ =~= Records::empty());
        r
    }

    /// The position of the first record at a place.
    fn find(&self, lifetime: Lifetime, store: &str, key: &str) -> (r: Option<usize>)
        ensures
            match r {
                Some(i) => is_first_at(self@, lifetime, store@, key@, i as int),
                None => !has_record(self@, lifetime, store@, key@),
            },
    {
        let mut i: usize = 0;
        while i < self.records.len()
            invariant
                i <= self.records@.len(),
                forall|j: int| 0 <= j < i ==> !at_place(#[trigger] self@[j], lifetime, store@, key@),
            decreases self.records@.len() - i,
        {
            let r = &self.records[i];
            if r.lifetime == lifetime && str_eq(r.store.as_str(), store) && str_eq(r.key.as_str(), key) {
                return Some(i);
            }
            i += 1;
        }
        None
    }

    /// The value recorded at a place, if there is one.
    pub fn get(&self, lifetime: Lifetime, store: &str, key: &str) -> (r: Option<Metric>)
        ensures
            match r {
                Some(v) => lookup(self@, lifetime, store@, key@) == Some(v@),
                None => lookup(self@, lifetime, store@, key@) is None,
            },
    {
        match self.find(lifetime, store, key) {
            Some(i) => {
                proof {
                    lemma_position(self@, lifetime, store@, key@, i as int);
                }
                Some(self.records[i].value.duplicate())
            },
            None => None,
        }
    }

    /// Whether a value is recorded at a place.
    pub fn has_metric(&self, lifetime: Lifetime, store: &str, key: &str) -> (r: bool)
        ensures
            r == has_record(self@, lifetime, store@, key@),
    {
        self.find(lifetime, store, key).is_some()
    }

    /// Records `value` at a place, in place of what was there.
    pub fn put(&mut self, lifetime: Lifetime, store: &str, key: &str, value: Metric)
        ensures
            final(self)@ == put_model(old(self)@, lifetime, store@, key@, value@),
    {
        let ghost v = value@;
        let record = Record { lifetime, store: store.to_owned(), key: key.to_owned(), value };
        match self.find(lifetime, store, key) {
            Some(i) => {
                proof {
                    lemma_position(self@, lifetime, store@, key@, i as int);
                }
                self.records.set(i, record);
            },
            None => {
                self.records.push(record);
            },
        }
        assert(self@ =~= put_model(old(self)@, lifetime, store@, key@, v));
    }
}


/// The records without those of ping lifetime in the store `store`.
pub open spec fn without_ping_lifetime(records: Records, store: Seq<char>) -> Records
    decreases records.len(),
{
    if records.len() == 0 {
        records
    } else {
        let rest = without_ping_lifetime(records.drop_last(), store);
        let last = records.last();
        if last.lifetime == Lifetime::Ping && last.store == store {
            rest
        } else {
            rest.push(last)
        }
    }
}

/// A snapshot after one more value was added to it. A value whose key holds
/// no `/` goes to the section of its kind, under its key. A value whose key
/// is an identifier, a `/` and a label goes to the section named `labeled_`
/// and its kind, into the object under the identifier, under the label.
pub open spec fn add_to_snapshot(snapshot: ObjectModel, key: Seq<char>, value: MetricModel) -> ObjectModel {
    match split_once_text(key, '/') {
        None => {
            let section = section_name(value);
            let bucket = object_at(snapshot, section);
            snapshot.insert(section, JsonModel::Object(bucket.insert(key, metric_json(value))))
        },
        Some((id, label)) => {
            let section = "labeled_"@ + section_name(value);
            let bucket = object_at(snapshot, section);
            let labels = object_at(bucket, id);
            snapshot.insert(
                section,
                JsonModel::Object(
                    bucket.insert(id, JsonModel::Object(labels.insert(label, metric_json(value)))),
                ),
            )
        },
    }
}

/// A snapshot after the values of one lifetime in the store `store` were
/// added to it, in the records' order.
pub open spec fn snapshot_pass(
    records: Records,
    store: Seq<char>,
    lifetime: Lifetime,
    snapshot: ObjectModel,
) -> ObjectModel
    decreases records.len(),
{
    if records.len() == 0 {
        snapshot
    } else {
        let before = snapshot_pass(records.drop_last(), store, lifetime, snapshot);
        let last = records.last();
        if last.lifetime == lifetime && last.store == store {
            add_to_snapshot(before, last.key, last.value)
        } else {
            before
        }
    }
}

/// The sections of the snapshot of the store `store`: the values of ping
/// lifetime, over them those of application lifetime, over them those of
/// user lifetime.
pub open spec fn snapshot_sections(records: Records, store: Seq<char>) -> ObjectModel {
    snapshot_pass(
        records,
        store,
        Lifetime::User,
        snapshot_pass(
            records,
            store,
            Lifetime::Application,
            snapshot_pass(records, store, Lifetime::Ping, ObjectModel::empty()),
        ),
    )
}

/// The snapshot of the store `store`: an object of sections, or nothing
/// where the store holds no value.
pub open spec fn snapshot_model(records: Records, store: Seq<char>) -> Option<JsonModel> {
    let sections = snapshot_sections(records, store);
    if sections.dom().len() == 0 {
        None
    } else {
        Some(JsonModel::Object(sections))
    }
}

/// Adds one value to a snapshot.
fn add_value(snapshot: &mut Json, key: &str, value: &Metric)
    requires
        old(snapshot)@ is Object,
    ensures
        final(snapshot)@ == JsonModel::Object(
            add_to_snapshot(old(snapshot)@->Object_0, key@, value@),
        ),
{
    let ghost m = snapshot@->Object_0;
    match split_once(key, '/') {
        None => {
            let section = value.ping_section();
            let mut bucket = snapshot.take_object(section);
            bucket.insert(key.to_owned(), value.as_json());
            snapshot.insert(section.to_owned(), bucket);
            assert(snapshot@->Object_0 =~= add_to_snapshot(m, key@, value@));
        },
        Some((id, label)) => {
            let section = concat("labeled_", value.ping_section());
            let mut bucket = snapshot.take_object(section.as_str());
            let ghost b = object_at(m, section@);
            let mut labels = bucket.take_object(id.as_str());
            labels.insert(label, value.as_json());
            bucket.insert(id, labels);
            assert(bucket@->Object_0 =~= b.insert(
                id@,
                JsonModel::Object(object_at(b, id@).insert(label@, metric_json(value@))),
            ));
            snapshot.insert(section, bucket);
            assert(snapshot@->Object_0 =~= add_to_snapshot(m, key@, value@));
        },
    }
}

impl Database {
    /// Adds the values of one lifetime in the store `store` to a snapshot.
    fn add_lifetime(&self, snapshot: &mut Json, store: &str, lifetime: Lifetime)
        requires
            old(snapshot)@ is Object,
        ensures
            final(snapshot)@ == JsonModel::Object(
                snapshot_pass(self@, store@, lifetime, old(snapshot)@->Object_0),
            ),
    {
        let ghost start = snapshot@->Object_0;
        let mut i: usize = 0;
        assert(self@.take(0) =~= Records::empty());
        while i < self.records.len()
            invariant
                i <= self.records@.len(),
                snapshot@ == JsonModel::Object(snapshot_pass(self@.take(i as int), store@, lifetime, start)),
            decreases self.records@.len() - i,
        {
            let r = &self.records[i];
            proof {
                assert(self@.take(i + 1).drop_last() =~= self@.take(i as int));
                assert(self@.take(i + 1).last() == r@);
            }
            if r.lifetime == lifetime && str_eq(r.store.as_str(), store) {
                add_value(snapshot, r.key.as_str(), &r.value);
            }
            i += 1;
        }
        assert(self@.take(self.records@.len() as int) =~= self@);
    }

    /// Removes the values of ping lifetime in the store `store`.
    pub fn clear_ping_lifetime_storage(&mut self, store: &str)
        ensures
            final(self)@ == without_ping_lifetime(old(self)@, store@),
    {
        let mut kept: Vec<Record> = Vec::new();
        let mut i: usize = 0;
        assert(self@.take(0) =~= Records::empty());
        while i < self.records.len()
            invariant
                i <= self.records@.len(),
                *self == *old(self),
                Seq::new(kept@.len(), |j: int| kept@[j]@) == without_ping_lifetime(
                    self@.take(i as int),
                    store@,
                ),
            decreases self.records@.len() - i,
        {
            let r = &self.records[i];
            let ghost before = Seq::new(kept@.len(), |j: int| kept@[j]@);
            proof {
                assert(self@.take(i + 1).drop_last() =~= self@.take(i as int));
                assert(self@.take(i + 1).last() == r@);
            }
            if !(r.lifetime == Lifetime::Ping && str_eq(r.store.as_str(), store)) {
                kept.push(
                    Record {
                        lifetime: r.lifetime,
                        store: r.store.clone(),
                        key: r.key.clone(),
                        value: r.value.duplicate(),
                    },
                );
                assert(Seq::new(kept@.len(), |j: int| kept@[j]@) =~= before.push(r@));
            }
            i += 1;
        }
        assert(self@.take(self.records@.len() as int) =~= self@);
        self.records = kept;
        assert(self@ =~= without_ping_lifetime(old(self)@, store@));
    }

    /// Removes every value.
    pub fn clear_all(&mut self)
        ensures
            final(self)@ == Records::empty(),
    {
        self.records = Vec::new();
        assert(self@ =~= Records::empty());
    }

    /// The snapshot of the store `store_name` as a JSON tree, or nothing
    /// where the store holds no value. With `clear_store` the store's values
    /// of ping lifetime are removed after the read.
    pub fn snapshot_as_json(&mut self, store_name: &str, clear_store: bool) -> (r: Option<Json>)
        ensures
            match r {
                Some(j) => snapshot_model(old(self)@, store_name@) == Some(j@),
                None => snapshot_model(old(self)@, store_name@) is None,
            },
            final(self)@ == (if clear_store {
                without_ping_lifetime(old(self)@, store_name@)
            } else {
                old(self)@
            }),
    {
        let mut snapshot = Json::object();
        self.add_lifetime(&mut snapshot, store_name, Lifetime::Ping);
        self.add_lifetime(&mut snapshot, store_name, Lifetime::Application);
        self.add_lifetime(&mut snapshot, store_name, Lifetime::User);
        if clear_store {
            self.clear_ping_lifetime_storage(store_name);
        }
        if snapshot.len() == 0 {
            None
        } else {
            Some(snapshot)
        }
    }
}


/// Every entry of the object is an object itself.
pub open spec fn all_objects(m: ObjectModel) -> bool {
    forall|k: Seq<char>| m.dom().contains(k) ==> (#[trigger] m[k]) is Object
}

/// Adding the values of a lifetime to a snapshot of objects gives a snapshot
/// of objects.
pub proof fn lemma_pass_objects(records: Records, store: Seq<char>, lifetime: Lifetime, snapshot: ObjectModel)
    requires
        all_objects(snapshot),
    ensures
        all_objects(snapshot_pass(records, store, lifetime, snapshot)),
    decreases records.len(),
{
    if records.len() > 0 {
        lemma_pass_objects(records.drop_last(), store, lifetime, snapshot);
    }
}

/// Every section of a snapshot is an object.
pub proof fn lemma_snapshot_objects(records: Records, store: Seq<char>)
    ensures
        all_objects(snapshot_sections(records, store)),
        snapshot_model(records, store) matches Some(j) ==> j is Object && all_objects(j->Object_0),
{
    let ping = snapshot_pass(records, store, Lifetime::Ping, ObjectModel::empty());
    lemma_pass_objects(records, store, Lifetime::Ping, ObjectModel::empty());
    let application = snapshot_pass(records, store, Lifetime::Application, ping);
    lemma_pass_objects(records, store, Lifetime::Application, ping);
    lemma_pass_objects(records, store, Lifetime::User, application);
}


/// Reads snapshots from a metric store.
#[derive(Clone, Copy, Debug)]
pub struct StorageManager;

impl StorageManager {
    /// The snapshot of the store `store_name` as a JSON tree, or nothing
    /// where the store holds no value. With `clear_store` the store's values
    /// of ping lifetime are removed after the read.
    pub fn snapshot_as_json(&self, storage: &mut Database, store_name: &str, clear_store: bool) -> (r:
        Option<Json>)
        ensures
            match r {
                Some(j) => snapshot_model(old(storage)@, store_name@) == Some(j@),
                None => snapshot_model(old(storage)@, store_name@) is None,
            },
            final(storage)@ == (if clear_store {
                without_ping_lifetime(old(storage)@, store_name@)
            } else {
                old(storage)@
            }),
    {
        storage.snapshot_as_json(store_name, clear_store)
    }

    /// The value recorded for a metric in a store, if there is one.
    pub fn snapshot_metric(
        &self,
        storage: &Database,
        store_name: &str,
        metric_id: &str,
        metric_lifetime: Lifetime,
    ) -> (r: Option<Metric>)
        ensures
            match r {
                Some(v) => lookup(storage@, metric_lifetime, store_name@, metric_id@) == Some(v@),
                None => lookup(storage@, metric_lifetime, store_name@, metric_id@) is None,
            },
    {
        storage.get(metric_lifetime, store_name, metric_id)
    }
}

} // verus!
