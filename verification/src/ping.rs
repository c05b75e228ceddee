//! Ping collection and assembly.

use crate::glean::{Glean, PingType, INTERNAL_STORAGE};
use crate::json::{
    first_keys, is_key_list, lemma_first_keys_all, lemma_first_keys_step, merge_model, object_at,
    sorted_keys, strings_model, Json, JsonModel, ObjectModel,
};
use crate::metrics::{
    add_in_stores, counter_at, saturating_sum, same_settings, CommonMetricData, CounterMetric,
};
use crate::storage::{
    all_objects, lemma_put_keeps_others, lemma_put_then_lookup, lemma_snapshot_objects, lookup, put_model, snapshot_model,
    without_ping_lifetime, Lifetime, Metric, MetricModel, Records,
};
use crate::text::{concat, copy_strings, join, join_text, split, split_text, str_eq, views};
use crate::time::{get_iso_time_string, iso_time_text, Datetime, TimeUnit};
use vstd::prelude::*;

verus! {

/// The version of this library, as pings report it.
pub const GLEAN_VERSION: &'static str = "0.1.0";

/// The headers to send with a ping: names and values.
pub type HeaderMap = Vec<(String, String)>;

/// The names and values of a list of headers.
pub open spec fn pairs_view(pairs: Seq<(String, String)>) -> Seq<(Seq<char>, Seq<char>)> {
    Seq::new(pairs.len(), |i: int| (pairs[i].0@, pairs[i].1@))
}

/// Holds everything needed to store or send a ping.
#[derive(Debug)]
pub struct Ping<'a> {
    /// The unique document id.
    pub doc_id: &'a str,
    /// The ping's name.
    pub name: &'a str,
    /// The path on the server to use when uploading this ping.
    pub url_path: &'a str,
    /// The payload, including the info sections.
    pub content: Json,
    /// The headers to upload with the payload.
    pub headers: HeaderMap,
    /// Whether the content contains the ping and client info sections.
    pub includes_info_sections: bool,
    /// Other pings that should be scheduled when this ping is sent.
    pub schedules_pings: Vec<String>,
    /// Capabilities the uploader must have in order to upload this ping.
    pub uploader_capabilities: Vec<String>,
}

/// Collects a ping's data and assembles it into its full payload.
#[derive(Clone, Copy, Debug)]
pub struct PingMaker;

/// The key of the sequence counter of a store.
pub open spec fn sequence_key(store: Seq<char>) -> Seq<char> {
    store + "#sequence"@
}

/// The key of the start of the collection window of a store.
pub open spec fn start_key(store: Seq<char>) -> Seq<char> {
    store + "#start"@
}

/// The sequence number that the next ping of a store gets.
pub open spec fn sequence_number(records: Records, store: Seq<char>) -> int {
    let n = counter_at(records, Lifetime::User, INTERNAL_STORAGE@, sequence_key(store));
    if n < 0 {
        0
    } else {
        n
    }
}

/// The records after the sequence counter of a store went up by one,
/// stopping at the largest `i32`.
pub open spec fn sequence_advanced(records: Records, store: Seq<char>) -> Records {
    put_model(
        records,
        Lifetime::User,
        INTERNAL_STORAGE@,
        sequence_key(store),
        MetricModel::Counter(
            saturating_sum(counter_at(records, Lifetime::User, INTERNAL_STORAGE@, sequence_key(store)), 1),
        ),
    )
}

/// The records after a sequence number was taken for a store: the counter
/// goes up where data is collected for the store, and stays where it is not.
pub open spec fn after_sequence(records: Records, enabled: bool, store: Seq<char>) -> Records {
    if enabled {
        sequence_advanced(records, store)
    } else {
        records
    }
}

/// The start of the collection window of a store: the time recorded as its
/// start, or `start_time` where none is.
pub open spec fn window_start(records: Records, start_time: Datetime, store: Seq<char>) -> Datetime {
    match lookup(records, Lifetime::User, INTERNAL_STORAGE@, start_key(store)) {
        Some(MetricModel::Datetime(t, _)) => t,
        _ => start_time,
    }
}

/// The records after a collection window of a store ended at `now`: `now`
/// is the start of the next window.
pub open spec fn after_window(records: Records, store: Seq<char>, unit: TimeUnit, now: Datetime) -> Records {
    put_model(
        records,
        Lifetime::User,
        INTERNAL_STORAGE@,
        start_key(store),
        MetricModel::Datetime(now, unit),
    )
}

/// The headers that the debug settings ask for: `X-Debug-ID` with the debug
/// view tag, then `X-Source-Tags` with the source tags, joined by commas.
pub open spec fn headers_model(debug_view_tag: Option<String>, source_tags: Option<Vec<String>>) -> Seq<
    (Seq<char>, Seq<char>),
> {
    (match debug_view_tag {
        Some(tag) => seq![("X-Debug-ID"@, tag@)],
        None => Seq::empty(),
    }) + (match source_tags {
        Some(tags) => seq![("X-Source-Tags"@, join_text(views(tags@), ","@))],
        None => Seq::empty(),
    })
}

/// The `ping_info` section: the sequence number and the collection window,
/// with the reason and the experiments where there are any.
pub open spec fn ping_info_model(
    seq: int,
    start_time: Seq<char>,
    end_time: Seq<char>,
    reason: Option<Seq<char>>,
    experiments: Option<JsonModel>,
) -> JsonModel {
    let base = ObjectModel::empty().insert("seq"@, JsonModel::Number(seq)).insert(
        "start_time"@,
        JsonModel::String(start_time),
    ).insert("end_time"@, JsonModel::String(end_time));
    let with_reason = match reason {
        Some(r) => base.insert("reason"@, JsonModel::String(r)),
        None => base,
    };
    JsonModel::Object(
        match experiments {
            Some(e) => with_reason.insert("experiments"@, e),
            None => with_reason,
        },
    )
}

/// The view of an optional string.
pub open spec fn opt_view(s: Option<&str>) -> Option<Seq<char>> {
    match s {
        Some(x) => Some(x@),
        None => None,
    }
}

/// The value of an optional tree.
pub open spec fn opt_json(j: Option<Json>) -> Option<JsonModel> {
    match j {
        Some(x) => Some(x@),
        None => None,
    }
}

impl PingMaker {
    /// Creates a new [`PingMaker`].
    pub fn new() -> (r: Self)
        ensures
            r == PingMaker,
    {
        PingMaker
    }

    /// Gets, and then increments, the sequence number for a given ping.
    /// Where no data is collected for the ping, the number is 0 and nothing
    /// changes.
    pub fn get_ping_seq(&self, glean: &mut Glean, storage_name: &str) -> (r: usize)
        ensures
            r <= i32::MAX,
            r == (if old(glean).ping_enabled(storage_name@) {
                sequence_number(old(glean).storage@, storage_name@)
            } else {
                0
            }),
            final(glean).storage@ == after_sequence(
                old(glean).storage@,
                old(glean).ping_enabled(storage_name@),
                storage_name@,
            ),
            same_settings(*final(glean), *old(glean)),
    {
        if !glean.is_ping_enabled(storage_name) {
            return 0;
        }
        let key = concat(storage_name, "#sequence");
        let mut stores: Vec<String> = Vec::new();
        stores.push(INTERNAL_STORAGE.to_owned());
        let seq = CounterMetric::new(CommonMetricData::new("", key.as_str(), stores, Lifetime::User));
        let current = match glean.storage.get(Lifetime::User, INTERNAL_STORAGE, key.as_str()) {
            Some(Metric::Counter(i)) => i,
            _ => 0,
        };
        proof {
            reveal_strlit("");
            let names = seq.meta@.send_in_pings;
            assert(names =~= seq![INTERNAL_STORAGE@]);
            assert(names.drop_last() =~= Seq::<Seq<char>>::empty());
            reveal_with_fuel(add_in_stores, 3);
        }
        seq.add_sync(glean, 1);
        if current < 0 {
            0
        } else {
            current as usize
        }
    }

    /// Gets the formatted start and end times for this ping and writes the
    /// end as the start for the next ping: the window ends at `now`. The
    /// start that is returned is the one that was stored before.
    pub fn get_start_end_times(
        &self,
        glean: &mut Glean,
        storage_name: &str,
        time_unit: TimeUnit,
        now: Datetime,
    ) -> (r: (String, String))
        ensures
            r.0@ == iso_time_text(
                window_start(old(glean).storage@, old(glean).start_time, storage_name@),
                time_unit,
            ),
            r.1@ == iso_time_text(now, time_unit),
            final(glean).storage@ == after_window(
                old(glean).storage@,
                storage_name@,
                time_unit,
                now,
            ),
            same_settings(*final(glean), *old(glean)),
    {
        let key = concat(storage_name, "#start");
        let start = match glean.storage.get(Lifetime::User, INTERNAL_STORAGE, key.as_str()) {
            Some(Metric::Datetime(t, _)) => t,
            _ => glean.start_time,
        };
        glean.storage.put(
            Lifetime::User,
            INTERNAL_STORAGE,
            key.as_str(),
            Metric::Datetime(now, time_unit),
        );
        (get_iso_time_string(start, time_unit), get_iso_time_string(now, time_unit))
    }

    /// Builds the `ping_info` section for a ping, taking the ping's window
    /// and then its sequence number.
    pub fn get_ping_info(
        &self,
        glean: &mut Glean,
        storage_name: &str,
        reason: Option<&str>,
        precision: TimeUnit,
        now: Datetime,
    ) -> (r: Json)
        ensures
            r@ == ping_info_model(
                if old(glean).ping_enabled(storage_name@) {
                    sequence_number(
                        after_window(
                            old(glean).storage@,
                            storage_name@,
                            precision,
                            now,
                        ),
                        storage_name@,
                    )
                } else {
                    0
                },
                iso_time_text(
                    window_start(old(glean).storage@, old(glean).start_time, storage_name@),
                    precision,
                ),
                iso_time_text(now, precision),
                opt_view(reason),
                opt_json(old(glean).experiments),
            ),
            final(glean).storage@ == after_sequence(
                after_window(
                    old(glean).storage@,
                    storage_name@,
                    precision,
                    now,
                ),
                old(glean).ping_enabled(storage_name@),
                storage_name@,
            ),
            same_settings(*final(glean), *old(glean)),
    {
        let (start_time, end_time) = self.get_start_end_times(glean, storage_name, precision, now);
        let seq = self.get_ping_seq(glean, storage_name);
        let ghost base = ObjectModel::empty().insert("seq"@, JsonModel::Number(seq as int)).insert(
            "start_time"@,
            JsonModel::String(start_time@),
        ).insert("end_time"@, JsonModel::String(end_time@));
        let mut map = Json::object();
        map.insert("seq".to_owned(), Json::from_i64(seq as i64));
        map.insert("start_time".to_owned(), Json::from_string(start_time));
        map.insert("end_time".to_owned(), Json::from_string(end_time));
        assert(map@ == JsonModel::Object(base));
        if let Some(reason) = reason {
            map.insert("reason".to_owned(), Json::from_str(reason));
        }
        let ghost with_reason = match reason {
            Some(r) => base.insert("reason"@, JsonModel::String(r@)),
            None => base,
        };
        assert(map@ == JsonModel::Object(with_reason));
        match &glean.experiments {
            Some(experiments) => {
                map.insert("experiments".to_owned(), experiments.duplicate());
                assert(map@ == JsonModel::Object(with_reason.insert("experiments"@, experiments@)));
            },
            None => {},
        }
        map
    }

    /// Builds the headers to be persisted and sent with a ping.
    pub fn get_headers(&self, glean: &Glean) -> (r: HeaderMap)
        ensures
            pairs_view(r@) == headers_model(glean.debug_view_tag, glean.source_tags),
    {
        let mut headers: HeaderMap = Vec::new();
        match &glean.debug_view_tag {
            Some(tag) => {
                headers.push(("X-Debug-ID".to_owned(), tag.clone()));
            },
            None => {},
        }
        match &glean.source_tags {
            Some(tags) => {
                headers.push(("X-Source-Tags".to_owned(), join(tags, ",")));
            },
            None => {},
        }
        assert(pairs_view(headers@) =~= headers_model(glean.debug_view_tag, glean.source_tags));
        headers
    }
}

/// The store that holds what `client_info` is made from.
pub const CLIENT_INFO_STORAGE: &'static str = "glean_client_info";

/// The result of merging the entries of `m` under `keys`, in their order,
/// into `base`.
pub open spec fn merge_entries(base: JsonModel, m: ObjectModel, keys: Seq<Seq<char>>) -> JsonModel
    decreases keys.len(),
{
    if keys.len() == 0 {
        base
    } else {
        merge_model(merge_entries(base, m, keys.drop_last()), m[keys.last()])
    }
}

/// The category and the field that a flattened key names: its first two
/// pieces between dots, where it has two.
pub open spec fn category_field(key: Seq<char>) -> Option<(Seq<char>, Seq<char>)> {
    let parts = split_text(key, '.');
    if parts.len() >= 2 {
        Some((parts[0], parts[1]))
    } else {
        None
    }
}

/// The key names a field of the category `category`.
pub open spec fn in_category(key: Seq<char>, category: Seq<char>) -> bool {
    category_field(key) matches Some((c, _)) && c == category
}

/// The key names a field of a category that gets an object of its own.
pub open spec fn is_regrouped(key: Seq<char>) -> bool {
    in_category(key, "attribution"@) || in_category(key, "distribution"@)
}

/// The fields of one category among the entries of `m` under `keys`, each
/// under its field name; of two entries with one field name the later wins.
pub open spec fn category_fields(m: ObjectModel, keys: Seq<Seq<char>>, category: Seq<char>) -> ObjectModel
    decreases keys.len(),
{
    if keys.len() == 0 {
        ObjectModel::empty()
    } else {
        let before = category_fields(m, keys.drop_last(), category);
        let key = keys.last();
        if in_category(key, category) {
            before.insert(category_field(key)->Some_0.1, m[key])
        } else {
            before
        }
    }
}

/// The object with the fields of a category under the category's name,
/// where there are any.
pub open spec fn with_category(m: ObjectModel, category: Seq<char>, fields: ObjectModel) -> ObjectModel {
    if fields.dom().len() == 0 {
        m
    } else {
        m.insert(category, JsonModel::Object(fields))
    }
}

/// A flat object after the fields of `attribution` and of `distribution`
/// were taken out of it and put into an object of their own each.
pub open spec fn regrouped(flat: ObjectModel) -> ObjectModel {
    let keys = sorted_keys(flat);
    let kept = Map::new(|k: Seq<char>| flat.dom().contains(k) && !is_regrouped(k), |k: Seq<char>| flat[k]);
    with_category(
        with_category(kept, "attribution"@, category_fields(flat, keys, "attribution"@)),
        "distribution"@,
        category_fields(flat, keys, "distribution"@),
    )
}

/// What `client_info` starts from: the version of this library.
pub open spec fn client_info_base() -> JsonModel {
    JsonModel::Object(
        ObjectModel::empty().insert("telemetry_sdk_build"@, JsonModel::String(GLEAN_VERSION@)),
    )
}

/// The `client_info` section made from a snapshot of the client info store:
/// the sections of the snapshot are merged into one flat object, in the
/// order of their names, and the fields of `attribution` and `distribution`
/// regrouped. Without a snapshot the section holds the library's version
/// alone. Where the client id is not to be included, it is taken out.
pub open spec fn client_info_model(snapshot: Option<JsonModel>, include_client_id: bool) -> JsonModel {
    let merged = match snapshot {
        Some(s) => JsonModel::Object(
            regrouped(
                merge_entries(client_info_base(), s->Object_0, sorted_keys(s->Object_0))->Object_0,
            ),
        ),
        None => client_info_base(),
    };
    if include_client_id {
        merged
    } else {
        JsonModel::Object(merged->Object_0.remove("client_id"@))
    }
}

/// Merging objects into an object gives an object.
proof fn lemma_merge_entries_object(base: JsonModel, m: ObjectModel, keys: Seq<Seq<char>>)
    requires
        base is Object,
        all_objects(m),
        forall|i: int| 0 <= i < keys.len() ==> m.dom().contains(#[trigger] keys[i]),
    ensures
        merge_entries(base, m, keys) is Object,
    decreases keys.len(),
{
    if keys.len() > 0 {
        lemma_merge_entries_object(base, m, keys.drop_last());
        assert(m.dom().contains(keys[keys.len() - 1]));
    }
}

/// Takes the fields of `attribution` and of `distribution` out of a flat
/// object and puts them into an object of their own each.
pub fn regroup(flat: &Json) -> (r: Json)
    requires
        flat@ is Object,
    ensures
        r@ == JsonModel::Object(regrouped(flat@->Object_0)),
{
    let ghost m = flat@->Object_0;
    let n = flat.len();
    let ghost keys = flat.keys();
    let mut kept = Json::object();
    let mut attribution = Json::object();
    let mut distribution = Json::object();
    let mut i: usize = 0;
    assert(keys.take(0) =~= Seq::<Seq<char>>::empty());
    assert(kept@->Object_0 =~= Map::new(
        |k: Seq<char>| first_keys(keys, 0).contains(k) && !is_regrouped(k),
        |k: Seq<char>| m[k],
    ));
    while i < n
        invariant
            i <= n,
            n == keys.len(),
            keys == flat.keys(),
            flat@ == JsonModel::Object(m),
            is_key_list(keys, m),
            kept@ == JsonModel::Object(
                Map::new(
                    |k: Seq<char>| first_keys(keys, i as int).contains(k) && !is_regrouped(k),
                    |k: Seq<char>| m[k],
                ),
            ),
            attribution@ == JsonModel::Object(category_fields(m, keys.take(i as int), "attribution"@)),
            distribution@ == JsonModel::Object(category_fields(m, keys.take(i as int), "distribution"@)),
        decreases n - i,
    {
        let key = flat.key_at(i);
        let value = flat.value_at(i).duplicate();
        let parts = split(key.as_str(), '.');
        let ghost k = keys[i as int];
        proof {
            assert(keys.take(i + 1).drop_last() =~= keys.take(i as int));
            assert(keys.take(i + 1).last() == k);
            lemma_first_keys_step(keys, i as int);
        }
        if parts.len() >= 2 && str_eq(parts[0].as_str(), "attribution") {
            attribution.insert(parts[1].clone(), value);
            proof {
                reveal_strlit("attribution");
                reveal_strlit("distribution");
                assert("attribution"@.len() != "distribution"@.len());
            }
            assert(in_category(k, "attribution"@));
            assert(!in_category(k, "distribution"@));
        } else if parts.len() >= 2 && str_eq(parts[0].as_str(), "distribution") {
            distribution.insert(parts[1].clone(), value);
            assert(in_category(k, "distribution"@));
        } else {
            kept.insert(key.clone(), value);
            assert(!is_regrouped(k));
        }
        assert(kept@->Object_0 =~= Map::new(
            |x: Seq<char>| first_keys(keys, i + 1).contains(x) && !is_regrouped(x),
            |x: Seq<char>| m[x],
        ));
        i += 1;
    }
    proof {
        assert(keys.take(n as int) =~= keys);
        lemma_first_keys_all(keys, m);
        assert(kept@->Object_0 =~= Map::new(
            |k: Seq<char>| m.dom().contains(k) && !is_regrouped(k),
            |k: Seq<char>| m[k],
        ));
    }
    if attribution.len() != 0 {
        kept.insert("attribution".to_owned(), attribution);
    }
    if distribution.len() != 0 {
        kept.insert("distribution".to_owned(), distribution);
    }
    kept
}

/// Builds the `client_info` section from a snapshot of the client info
/// store.
pub fn client_info_from(snapshot: Option<&Json>, include_client_id: bool) -> (r: Json)
    requires
        snapshot matches Some(s) ==> s@ is Object && all_objects(s@->Object_0),
    ensures
        r@ == client_info_model(
            match snapshot {
                Some(s) => Some(s@),
                None => None,
            },
            include_client_id,
        ),
{
    let mut map = Json::object();
    map.insert("telemetry_sdk_build".to_owned(), Json::from_str(GLEAN_VERSION));
    if let Some(client_info) = snapshot {
        let ghost m = client_info@->Object_0;
        let n = client_info.len();
        let ghost keys = client_info.keys();
        let mut i: usize = 0;
        assert(keys.take(0) =~= Seq::<Seq<char>>::empty());
        while i < n
            invariant
                i <= n,
                n == keys.len(),
                keys == client_info.keys(),
                client_info@ == JsonModel::Object(m),
                is_key_list(keys, m),
                all_objects(m),
                map@ == merge_entries(client_info_base(), m, keys.take(i as int)),
            decreases n - i,
        {
            proof {
                assert(keys.take(i + 1).drop_last() =~= keys.take(i as int));
                assert(keys.take(i + 1).last() == keys[i as int]);
            }
            map.merge(client_info.value_at(i));
            i += 1;
        }
        proof {
            assert(keys.take(n as int) =~= keys);
            lemma_merge_entries_object(client_info_base(), m, keys);
        }
        map = regroup(&map);
    }
    if !include_client_id {
        let _ = map.remove("client_id");
        assert(map@->Object_0 =~= client_info_model(
            match snapshot {
                Some(s) => Some(s@),
                None => None,
            },
            true,
        )->Object_0.remove("client_id"@));
    }
    map
}

impl PingMaker {
    /// Builds the `client_info` section from the client info store, which is
    /// read and cleared of its values of ping lifetime.
    pub fn get_client_info(&self, glean: &mut Glean, include_client_id: bool) -> (r: Json)
        ensures
            r@ == client_info_model(
                snapshot_model(old(glean).storage@, CLIENT_INFO_STORAGE@),
                include_client_id,
            ),
            final(glean).storage@ == without_ping_lifetime(old(glean).storage@, CLIENT_INFO_STORAGE@),
            same_settings(*final(glean), *old(glean)),
    {
        proof {
            lemma_snapshot_objects(glean.storage@, CLIENT_INFO_STORAGE@);
        }
        let snapshot = glean.storage.snapshot_as_json(CLIENT_INFO_STORAGE, true);
        client_info_from(snapshot.as_ref(), include_client_id)
    }
}

/// The key of the metric that lists the capabilities that the uploader of a
/// ping must have.
pub const UPLOADER_CAPABILITIES_KEY: &'static str = "glean.ping.uploader_capabilities";

/// The key of the metric that holds the experimentation identifier.
pub const EXPERIMENTATION_ID_KEY: &'static str = "glean.client.annotation.experimentation_id";

/// The metrics of a ping with the list of the capabilities that its uploader
/// must have. A ping without such capabilities keeps its metrics as they
/// are. Else the list goes into the section `string_list`, and a ping
/// without metrics gets that section alone, where it is sent when empty or
/// has events.
pub open spec fn with_capabilities(
    metrics: Option<JsonModel>,
    capabilities: Seq<String>,
    send_if_empty: bool,
    events_present: bool,
) -> Option<JsonModel> {
    if capabilities.len() == 0 {
        metrics
    } else {
        let started = if metrics is None && (send_if_empty || events_present) {
            Some(JsonModel::Object(ObjectModel::empty()))
        } else {
            metrics
        };
        match started {
            Some(JsonModel::Object(m)) => Some(
                JsonModel::Object(
                    m.insert(
                        "string_list"@,
                        JsonModel::Object(
                            object_at(m, "string_list"@).insert(
                                UPLOADER_CAPABILITIES_KEY@,
                                strings_model(capabilities),
                            ),
                        ),
                    ),
                ),
            ),
            other => other,
        }
    }
}

/// The metrics hold the experimentation identifier.
pub open spec fn has_experimentation_id(m: ObjectModel) -> bool {
    object_at(m, "string"@).dom().contains(EXPERIMENTATION_ID_KEY@)
}

/// The metrics of a ping without the experimentation identifier, where it
/// may not stay. It is taken out of a ping that does not include the client
/// id, and of a ping that is not sent when empty and would hold nothing
/// else. A section or a payload that is empty after that is dropped.
pub open spec fn redacted(
    metrics: Option<JsonModel>,
    include_client_id: bool,
    send_if_empty: bool,
    events_present: bool,
) -> Option<JsonModel> {
    match metrics {
        Some(JsonModel::Object(m)) => {
            let strings = object_at(m, "string"@);
            let alone = !events_present && m.dom().len() == 1 && strings.dom().len() == 1;
            if has_experimentation_id(m) && (!include_client_id || (!send_if_empty && alone)) {
                let left = strings.remove(EXPERIMENTATION_ID_KEY@);
                let rest = if left.dom().len() == 0 {
                    m.remove("string"@)
                } else {
                    m.insert("string"@, JsonModel::Object(left))
                };
                if rest.dom().len() == 0 {
                    None
                } else {
                    Some(JsonModel::Object(rest))
                }
            } else {
                metrics
            }
        },
        _ => metrics,
    }
}

/// Whether a ping is sent: not if it holds neither metrics nor events and is
/// not sent when empty, and never a ping named `events` without events.
pub open spec fn is_sent(name: Seq<char>, send_if_empty: bool, metrics_present: bool, events_present: bool) -> bool {
    &&& send_if_empty || metrics_present || events_present
    &&& !(name == "events"@ && !events_present)
}

/// The payload of a ping: the info sections where they are asked for, then
/// the metrics and the events where there are any.
pub open spec fn envelope(
    info: Option<(JsonModel, JsonModel)>,
    metrics: Option<JsonModel>,
    events: Option<JsonModel>,
) -> JsonModel {
    let base = match info {
        Some((ping_info, client_info)) => ObjectModel::empty().insert("ping_info"@, ping_info).insert(
            "client_info"@,
            client_info,
        ),
        None => ObjectModel::empty(),
    };
    let with_metrics = match metrics {
        Some(m) => base.insert("metrics"@, m),
        None => base,
    };
    JsonModel::Object(
        match events {
            Some(e) => with_metrics.insert("events"@, e),
            None => with_metrics,
        },
    )
}

/// The granularity of the window of a ping.
pub open spec fn precision_of(ping: PingType) -> TimeUnit {
    if ping.precise_timestamps {
        TimeUnit::Millisecond
    } else {
        TimeUnit::Minute
    }
}

/// The metrics that a ping is assembled from: the snapshot of its store,
/// with the uploader's capabilities and without the experimentation
/// identifier where it may not stay.
pub open spec fn prepared_metrics(records: Records, ping: PingType, events_present: bool) -> Option<JsonModel> {
    redacted(
        with_capabilities(
            snapshot_model(records, ping.name@),
            ping.uploader_capabilities@,
            ping.send_if_empty,
            events_present,
        ),
        ping.include_client_id,
        ping.send_if_empty,
        events_present,
    )
}

/// Whether collecting a ping gives a ping.
pub open spec fn collects(records: Records, ping: PingType, events_present: bool) -> bool {
    is_sent(
        ping.name@,
        ping.send_if_empty,
        prepared_metrics(records, ping, events_present) is Some,
        events_present,
    )
}

/// The records when the store of a ping was read and cleared.
pub open spec fn after_read(records: Records, ping: PingType) -> Records {
    without_ping_lifetime(records, ping.name@)
}

/// The records when the window and the sequence number of a ping were
/// taken.
pub open spec fn after_ping_info(glean: Glean, ping: PingType, now: Datetime) -> Records {
    after_sequence(
        after_window(
            after_read(glean.storage@, ping),
            ping.name@,
            precision_of(ping),
            now,
        ),
        glean.ping_enabled(ping.name@),
        ping.name@,
    )
}

/// The records after a ping was collected: its store is read and cleared;
/// for a ping that is sent with info sections, its window and sequence
/// number are taken and the client info store is read and cleared.
pub open spec fn after_collect(glean: Glean, ping: PingType, events_present: bool, now: Datetime) -> Records {
    if collects(glean.storage@, ping, events_present) && ping.include_info_sections {
        without_ping_lifetime(after_ping_info(glean, ping, now), CLIENT_INFO_STORAGE@)
    } else {
        after_read(glean.storage@, ping)
    }
}

/// The info sections of a ping that has them.
pub open spec fn info_sections(glean: Glean, ping: PingType, reason: Option<Seq<char>>, now: Datetime) -> Option<
    (JsonModel, JsonModel),
> {
    if ping.include_info_sections {
        let read = after_read(glean.storage@, ping);
        let unit = precision_of(ping);
        Some(
            (
                ping_info_model(
                    if glean.ping_enabled(ping.name@) {
                        sequence_number(
                            after_window(read, ping.name@, unit, now),
                            ping.name@,
                        )
                    } else {
                        0
                    },
                    iso_time_text(window_start(read, glean.start_time, ping.name@), unit),
                    iso_time_text(now, unit),
                    reason,
                    opt_json(glean.experiments),
                ),
                client_info_model(
                    snapshot_model(after_ping_info(glean, ping, now), CLIENT_INFO_STORAGE@),
                    ping.include_client_id,
                ),
            ),
        )
    } else {
        None
    }
}

/// The payload of the ping that collecting gives.
pub open spec fn collected_content(
    glean: Glean,
    ping: PingType,
    reason: Option<Seq<char>>,
    events: Option<JsonModel>,
    now: Datetime,
) -> JsonModel {
    envelope(
        info_sections(glean, ping, reason, now),
        prepared_metrics(glean.storage@, ping, events is Some),
        events,
    )
}

/// Adds the list of the capabilities that the uploader must have to the
/// metrics of a ping.
pub fn add_capabilities(
    metrics: Option<Json>,
    capabilities: &Vec<String>,
    send_if_empty: bool,
    events_present: bool,
) -> (r: Option<Json>)
    ensures
        opt_json(r) == with_capabilities(opt_json(metrics), capabilities@, send_if_empty, events_present),
{
    if capabilities.len() == 0 {
        return metrics;
    }
    let started = if metrics.is_none() && (send_if_empty || events_present) {
        Some(Json::object())
    } else {
        metrics
    };
    match started {
        Some(mut map) => {
            proof {
                map.lemma_never_real();
            }
            if map.is_object() {
                let ghost m = map@->Object_0;
                let mut lists = map.take_object("string_list");
                lists.insert(UPLOADER_CAPABILITIES_KEY.to_owned(), Json::from_strings(capabilities));
                map.insert("string_list".to_owned(), lists);
                assert(map@->Object_0 =~= m.insert(
                    "string_list"@,
                    JsonModel::Object(
                        object_at(m, "string_list"@).insert(
                            UPLOADER_CAPABILITIES_KEY@,
                            strings_model(capabilities@),
                        ),
                    ),
                ));
            }
            Some(map)
        },
        None => None,
    }
}

/// Takes the experimentation identifier out of the metrics of a ping where
/// it may not stay.
pub fn redact_experimentation_id(
    metrics: Option<Json>,
    include_client_id: bool,
    send_if_empty: bool,
    events_present: bool,
) -> (r: Option<Json>)
    ensures
        opt_json(r) == redacted(opt_json(metrics), include_client_id, send_if_empty, events_present),
{
    match metrics {
        Some(mut map) => {
            if !map.is_object() {
                return Some(map);
            }
            let ghost m = map@->Object_0;
            let count = map.len();
            let (has_id, string_count) = match map.get("string") {
                Some(s) => if s.is_object() {
                    (s.contains_key(EXPERIMENTATION_ID_KEY), s.len())
                } else {
                    (false, 0)
                },
                None => (false, 0),
            };
            let alone = !events_present && count == 1 && string_count == 1;
            if has_id && (!include_client_id || (!send_if_empty && alone)) {
                let mut strings = map.take_object("string");
                let _ = strings.remove(EXPERIMENTATION_ID_KEY);
                if strings.len() != 0 {
                    map.insert("string".to_owned(), strings);
                    assert(map@->Object_0 =~= m.insert(
                        "string"@,
                        JsonModel::Object(object_at(m, "string"@).remove(EXPERIMENTATION_ID_KEY@)),
                    ));
                }
                if map.len() == 0 {
                    None
                } else {
                    Some(map)
                }
            } else {
                Some(map)
            }
        },
        None => None,
    }
}

impl PingMaker {
    /// Collects a snapshot for the given ping from storage and attaches the
    /// required meta information. The store of the ping is read and
    /// cleared. `events_data` holds the events recorded for the ping, and
    /// `now` is the time at which the ping's window ends.
    ///
    /// Returns the assembled ping, or `None` if the ping is not sent: its
    /// store is empty and the ping is not sent when empty, or it is the ping
    /// named `events` and has no events.
    pub fn collect<'a>(
        &self,
        glean: &mut Glean,
        ping: &'a PingType,
        reason: Option<&str>,
        doc_id: &'a str,
        url_path: &'a str,
        events_data: Option<Json>,
        now: Datetime,
    ) -> (r: Option<Ping<'a>>)
        ensures
            r is Some == collects(old(glean).storage@, *ping, events_data is Some),
            final(glean).storage@ == after_collect(*old(glean), *ping, events_data is Some, now),
            same_settings(*final(glean), *old(glean)),
            r matches Some(p) ==> {
                &&& p.content@ == collected_content(
                    *old(glean),
                    *ping,
                    opt_view(reason),
                    opt_json(events_data),
                    now,
                )
                &&& p.name@ == ping.name@
                &&& p.doc_id@ == doc_id@
                &&& p.url_path@ == url_path@
                &&& pairs_view(p.headers@) == headers_model(
                    old(glean).debug_view_tag,
                    old(glean).source_tags,
                )
                &&& p.includes_info_sections == ping.include_info_sections
                &&& views(p.schedules_pings@) == views(ping.schedules_pings@)
                &&& views(p.uploader_capabilities@) == views(ping.uploader_capabilities@)
            },
    {
        let events_present = events_data.is_some();
        let snapshot = glean.storage.snapshot_as_json(ping.name(), true);
        let with_list = add_capabilities(
            snapshot,
            &ping.uploader_capabilities,
            ping.send_if_empty,
            events_present,
        );
        let metrics_data = redact_experimentation_id(
            with_list,
            ping.include_client_id,
            ping.send_if_empty,
            events_present,
        );
        let is_empty = metrics_data.is_none() && !events_present;
        if !ping.send_if_empty && is_empty {
            return None;
        } else if str_eq(ping.name(), "events") && !events_present {
            return None;
        }
        let precision = if ping.precise_timestamps {
            TimeUnit::Millisecond
        } else {
            TimeUnit::Minute
        };
        let mut json = Json::object();
        if ping.include_info_sections {
            let ping_info = self.get_ping_info(glean, ping.name(), reason, precision, now);
            let client_info = self.get_client_info(glean, ping.include_client_id);
            json.insert("ping_info".to_owned(), ping_info);
            json.insert("client_info".to_owned(), client_info);
        }
        if let Some(metrics_data) = metrics_data {
            json.insert("metrics".to_owned(), metrics_data);
        }
        if let Some(events_data) = events_data {
            json.insert("events".to_owned(), events_data);
        }
        Some(
            Ping {
                content: json,
                name: ping.name(),
                doc_id,
                url_path,
                headers: self.get_headers(glean),
                includes_info_sections: ping.include_info_sections,
                schedules_pings: copy_strings(&ping.schedules_pings),
                uploader_capabilities: copy_strings(&ping.uploader_capabilities),
            },
        )
    }
}

/// The window of a store starts where the last one ended: after a window
/// ended at `now`, the stored start is `now`, whatever the start was and
/// whether or not upload is enabled.
pub proof fn lemma_next_window_starts_at_end(
    records: Records,
    start_time: Datetime,
    store: Seq<char>,
    unit: TimeUnit,
    now: Datetime,
)
    ensures
        window_start(after_window(records, store, unit, now), start_time, store) == now,
{
    lemma_put_then_lookup(
        records,
        Lifetime::User,
        INTERNAL_STORAGE@,
        start_key(store),
        MetricModel::Datetime(now, unit),
    );
}

/// Ending a window of a store writes the start of that store and nothing
/// else: what is recorded at any other place, the sequence counter of the
/// store and the start of another store among them, stays.
pub proof fn lemma_window_keeps_others(
    records: Records,
    store: Seq<char>,
    unit: TimeUnit,
    now: Datetime,
    lifetime: Lifetime,
    other_store: Seq<char>,
    key: Seq<char>,
)
    requires
        !(lifetime == Lifetime::User && other_store == INTERNAL_STORAGE@ && key == start_key(store)),
    ensures
        lookup(after_window(records, store, unit, now), lifetime, other_store, key) == lookup(
            records,
            lifetime,
            other_store,
            key,
        ),
{
    lemma_put_keeps_others(
        records,
        Lifetime::User,
        INTERNAL_STORAGE@,
        start_key(store),
        MetricModel::Datetime(now, unit),
        lifetime,
        other_store,
        key,
    );
}

/// While data is collected for a store, each sequence number that is taken
/// is followed by the next higher one, up to the largest `i32`.
pub proof fn lemma_sequence_numbers_increase(records: Records, store: Seq<char>)
    requires
        0 <= counter_at(records, Lifetime::User, INTERNAL_STORAGE@, sequence_key(store)) < i32::MAX,
    ensures
        sequence_number(after_sequence(records, true, store), store) == sequence_number(records, store)
            + 1,
{
    lemma_put_then_lookup(
        records,
        Lifetime::User,
        INTERNAL_STORAGE@,
        sequence_key(store),
        MetricModel::Counter(
            saturating_sum(counter_at(records, Lifetime::User, INTERNAL_STORAGE@, sequence_key(store)), 1),
        ),
    );
}

/// Where no data is collected for a store, taking a sequence number leaves
/// the records as they are; and over an empty store, as after upload was
/// disabled, the numbering begins at 0.
pub proof fn lemma_sequence_numbers_restart(records: Records, store: Seq<char>)
    ensures
        after_sequence(records, false, store) == records,
        sequence_number(Records::empty(), store) == 0,
{
}

/// A ping named `events` is not sent without events, whatever its store
/// holds and whether or not it is sent when empty.
pub proof fn lemma_events_ping_needs_events(records: Records, ping: PingType)
    requires
        ping.name@ == "events"@,
    ensures
        !collects(records, ping, false),
{
}

/// A ping of any other name that is sent when empty is sent though it has
/// neither metrics nor events; without capabilities for its uploader and
/// without info sections its payload is the empty object.
pub proof fn lemma_empty_ping_is_sent(
    glean: Glean,
    ping: PingType,
    reason: Option<Seq<char>>,
    now: Datetime,
)
    requires
        ping.name@ != "events"@,
        ping.send_if_empty,
        snapshot_model(glean.storage@, ping.name@) is None,
    ensures
        collects(glean.storage@, ping, false),
        ping.uploader_capabilities@.len() == 0 && !ping.include_info_sections ==> collected_content(
            glean,
            ping,
            reason,
            None,
            now,
        ) == JsonModel::Object(ObjectModel::empty()),
{
}

impl Default for PingMaker {
    fn default() -> (r: Self)
        ensures
            r == PingMaker,
    {
        Self::new()
    }
}

} // verus!
