//! What a metric is recorded under, the errors recorded against a metric,
//! and the counter and string metrics.

use crate::glean::Glean;
use crate::labeled::{
    dynamic_key, label_error, recorded, resolve_dynamic_label, resolved, validate_dynamic_label,
    Recorded,
};
use crate::storage::{
    lemma_put_keeps_others, lemma_put_then_lookup, lookup, put_model, Database, Lifetime, Metric,
    MetricModel, Records,
};
use crate::text::{
    concat3, contains_str, copy_strings, split_once, split_once_text, substring, chars_of, views,
};
use vstd::prelude::*;

verus! {

/// The kinds of error that are recorded against a metric.
#[derive(Clone, Copy, Debug, PartialEq, Eq, Structural)]
pub enum ErrorType {
    /// For when the value to be recorded does not match the metric.
    InvalidValue,
    /// For when the label of a labeled metric does not match the pattern.
    InvalidLabel,
    /// For when the value to be recorded is longer than allowed.
    InvalidOverflow,
}

/// The name under which errors of a kind are counted.
pub open spec fn error_name(error: ErrorType) -> Seq<char> {
    match error {
        ErrorType::InvalidValue => "invalid_value"@,
        ErrorType::InvalidLabel => "invalid_label"@,
        ErrorType::InvalidOverflow => "invalid_overflow"@,
    }
}

impl ErrorType {
    /// The name under which errors of this kind are counted.
    pub fn as_str(&self) -> (r: &'static str)
        ensures
            r@ == error_name(*self),
    {
        match self {
            ErrorType::InvalidValue => "invalid_value",
            ErrorType::InvalidLabel => "invalid_label",
            ErrorType::InvalidOverflow => "invalid_overflow",
        }
    }
}

/// What every metric has: its name and category, the stores it is recorded
/// in, its lifetime, whether it is disabled, and the label that was asked
/// for where it is a sub-metric of a metric with dynamic labels.
#[derive(Debug)]
pub struct CommonMetricData {
    pub name: String,
    pub category: String,
    pub send_in_pings: Vec<String>,
    pub lifetime: Lifetime,
    pub disabled: bool,
    pub dynamic_label: Option<String>,
}

/// The mathematical value of a [`CommonMetricData`].
pub struct MetaModel {
    pub name: Seq<char>,
    pub category: Seq<char>,
    pub send_in_pings: Seq<Seq<char>>,
    pub lifetime: Lifetime,
    pub disabled: bool,
    pub dynamic_label: Option<Seq<char>>,
}

impl View for CommonMetricData {
    type V = MetaModel;

    open spec fn view(&self) -> MetaModel {
        MetaModel {
            name: self.name@,
            category: self.category@,
            send_in_pings: views(self.send_in_pings@),
            lifetime: self.lifetime,
            disabled: self.disabled,
            dynamic_label: match self.dynamic_label {
                Some(l) => Some(l@),
                None => None,
            },
        }
    }
}

/// The identifier of a metric without regard to a dynamic label: the name,
/// after the category and a `.` where there is a category.
pub open spec fn base_identifier(meta: MetaModel) -> Seq<char> {
    if meta.category.len() == 0 {
        meta.name
    } else {
        meta.category + seq!['.'] + meta.name
    }
}

/// An identifier without its label: what stands before the first `/`.
pub open spec fn strip_label(identifier: Seq<char>) -> Seq<char> {
    match split_once_text(identifier, '/') {
        Some((id, _)) => id,
        None => identifier,
    }
}

/// The counter at a place; 0 where no counter is recorded there.
pub open spec fn counter_at(records: Records, lifetime: Lifetime, store: Seq<char>, key: Seq<char>) -> int {
    match lookup(records, lifetime, store, key) {
        Some(MetricModel::Counter(n)) => n,
        _ => 0,
    }
}

/// The sum of a counter and an amount, held at the largest `i32`.
pub open spec fn saturating_sum(n: int, amount: int) -> int {
    if n + amount > i32::MAX {
        i32::MAX as int
    } else {
        n + amount
    }
}

/// The records after `amount` was added to the counter under `key` in each
/// of `stores`, one store after the other.
pub open spec fn add_in_stores(
    records: Records,
    stores: Seq<Seq<char>>,
    lifetime: Lifetime,
    key: Seq<char>,
    amount: int,
) -> Records
    decreases stores.len(),
{
    if stores.len() == 0 {
        records
    } else {
        let before = add_in_stores(records, stores.drop_last(), lifetime, key, amount);
        let store = stores.last();
        put_model(
            before,
            lifetime,
            store,
            key,
            MetricModel::Counter(saturating_sum(counter_at(before, lifetime, store, key), amount)),
        )
    }
}

/// The records after `value` was recorded under `key` in each of `stores`.
pub open spec fn put_in_stores(
    records: Records,
    stores: Seq<Seq<char>>,
    lifetime: Lifetime,
    key: Seq<char>,
    value: MetricModel,
) -> Records
    decreases stores.len(),
{
    if stores.len() == 0 {
        records
    } else {
        put_model(
            put_in_stores(records, stores.drop_last(), lifetime, key, value),
            lifetime,
            stores.last(),
            key,
            value,
        )
    }
}

/// Adding to the counter under a key in a list of distinct stores adds the
/// amount once to the counter in each of them, and changes that counter in
/// no other store.
pub proof fn lemma_counter_after_add(
    records: Records,
    stores: Seq<Seq<char>>,
    lifetime: Lifetime,
    key: Seq<char>,
    amount: int,
    store: Seq<char>,
)
    requires
        stores.no_duplicates(),
    ensures
        counter_at(add_in_stores(records, stores, lifetime, key, amount), lifetime, store, key) == (if stores.contains(
            store,
        ) {
            saturating_sum(counter_at(records, lifetime, store, key), amount)
        } else {
            counter_at(records, lifetime, store, key)
        }),
    decreases stores.len(),
{
    if stores.len() > 0 {
        let rest = stores.drop_last();
        let last = stores.last();
        let before = add_in_stores(records, rest, lifetime, key, amount);
        assert(rest.no_duplicates()) by {
            assert forall|i: int, j: int| 0 <= i < rest.len() && 0 <= j < rest.len() && i != j implies rest[i]
                != rest[j] by {
                assert(rest[i] == stores[i] && rest[j] == stores[j]);
            }
        }
        lemma_counter_after_add(records, rest, lifetime, key, amount, store);
        let value = MetricModel::Counter(saturating_sum(counter_at(before, lifetime, last, key), amount));
        if store == last {
            lemma_put_then_lookup(before, lifetime, last, key, value);
            assert(!rest.contains(last)) by {
                if rest.contains(last) {
                    let i = choose|i: int| 0 <= i < rest.len() && rest[i] == last;
                    assert(stores[i] == stores[stores.len() - 1]);
                }
            }
            assert(stores.contains(store)) by {
                assert(stores[stores.len() - 1] == store);
            }
        } else {
            lemma_put_keeps_others(before, lifetime, last, key, value, lifetime, store, key);
            assert(stores.contains(store) == rest.contains(store)) by {
                if stores.contains(store) {
                    let i = choose|i: int| 0 <= i < stores.len() && stores[i] == store;
                    assert(rest[i] == store);
                }
                if rest.contains(store) {
                    let i = choose|i: int| 0 <= i < rest.len() && rest[i] == store;
                    assert(stores[i] == store);
                }
            }
        }
    }
}

/// The stores that errors against a metric are counted in: the metric's own
/// and the store `metrics`.
pub open spec fn error_stores(stores: Seq<Seq<char>>) -> Seq<Seq<char>> {
    if stores.contains("metrics"@) {
        stores
    } else {
        stores.push("metrics"@)
    }
}

/// The key of the counter of the errors of one kind against a metric.
pub open spec fn error_key(error: ErrorType, meta: MetaModel) -> Seq<char> {
    "glean.error"@ + seq!['.'] + (error_name(error) + seq!['/'] + strip_label(base_identifier(meta)))
}

/// The records after `count` errors of one kind were counted against a
/// metric.
pub open spec fn with_error(records: Records, meta: MetaModel, error: ErrorType, count: int) -> Records {
    add_in_stores(records, error_stores(meta.send_in_pings), Lifetime::Ping, error_key(error, meta), count)
}

/// The data of the counter that the errors of one kind against a metric are
/// counted in.
pub open spec fn error_meta(meta: MetaModel, error: ErrorType) -> MetaModel {
    MetaModel {
        name: error_name(error) + seq!['/'] + strip_label(base_identifier(meta)),
        category: "glean.error"@,
        send_in_pings: error_stores(meta.send_in_pings),
        lifetime: Lifetime::Ping,
        disabled: false,
        dynamic_label: None,
    }
}

/// The records after `count` errors of one kind were reported against a
/// metric. A count that is not positive counts no error of that kind: it
/// is itself one error of kind invalid value against the counter that it
/// was meant for.
pub open spec fn error_recorded(records: Records, meta: MetaModel, error: ErrorType, count: int) -> Records {
    if count > 0 {
        with_error(records, meta, error, count)
    } else {
        with_error(records, error_meta(meta, error), ErrorType::InvalidValue, 1)
    }
}

/// The identifier that a metric is recorded under: its base identifier, or
/// for a sub-metric with a dynamic label the key that the label resolves to.
pub open spec fn identifier_of(state: Recorded, meta: MetaModel) -> Seq<char> {
    match meta.dynamic_label {
        Some(label) => dynamic_key(state, meta, label),
        None => base_identifier(meta),
    }
}

/// The state after a metric's identifier was worked out: a dynamic label
/// was resolved.
pub open spec fn identified(state: Recorded, upload_enabled: bool, meta: MetaModel) -> Recorded {
    match meta.dynamic_label {
        Some(label) => resolved(state, upload_enabled, meta, label),
        None => state,
    }
}

/// The two states differ in their recorded values and in their label
/// registry at most.
pub open spec fn same_configuration(a: Glean, b: Glean) -> bool {
    &&& a.upload_enabled == b.upload_enabled
    &&& a.start_time == b.start_time
    &&& a.debug_view_tag == b.debug_view_tag
    &&& a.source_tags == b.source_tags
    &&& a.ping_registry == b.ping_registry
    &&& a.experiments == b.experiments
    &&& a.write_timings == b.write_timings
}

/// The two states differ in their recorded values at most.
pub open spec fn same_settings(a: Glean, b: Glean) -> bool {
    same_configuration(a, b) && a.label_registry@ == b.label_registry@
}

impl Database {
    /// Adds `amount` to the counter under `key` in each of `stores`.
    pub(crate) fn add_in_stores(&mut self, stores: &Vec<String>, lifetime: Lifetime, key: &str, amount: i32)
        requires
            amount > 0,
        ensures
            final(self)@ == add_in_stores(old(self)@, views(stores@), lifetime, key@, amount as int),
    {
        let mut i: usize = 0;
        assert(views(stores@).take(0) =~= Seq::<Seq<char>>::empty());
        while i < stores.len()
            invariant
                i <= stores@.len(),
                amount > 0,
                self@ == add_in_stores(
                    old(self)@,
                    views(stores@).take(i as int),
                    lifetime,
                    key@,
                    amount as int,
                ),
            decreases stores@.len() - i,
        {
            proof {
                assert(views(stores@).take(i + 1).drop_last() =~= views(stores@).take(i as int));
                assert(views(stores@).take(i + 1).last() == stores@[i as int]@);
            }
            let store = stores[i].as_str();
            let value = match self.get(lifetime, store, key) {
                Some(Metric::Counter(n)) => if n > i32::MAX - amount {
                    i32::MAX
                } else {
                    n + amount
                },
                _ => amount,
            };
            self.put(lifetime, store, key, Metric::Counter(value));
            i += 1;
        }
        assert(views(stores@).take(stores@.len() as int) =~= views(stores@));
    }

    /// Records `value` under `key` in each of `stores`.
    pub fn put_in_stores(&mut self, stores: &Vec<String>, lifetime: Lifetime, key: &str, value: &Metric)
        ensures
            final(self)@ == put_in_stores(old(self)@, views(stores@), lifetime, key@, value@),
    {
        let mut i: usize = 0;
        assert(views(stores@).take(0) =~= Seq::<Seq<char>>::empty());
        while i < stores.len()
            invariant
                i <= stores@.len(),
                self@ == put_in_stores(old(self)@, views(stores@).take(i as int), lifetime, key@, value@),
            decreases stores@.len() - i,
        {
            proof {
                assert(views(stores@).take(i + 1).drop_last() =~= views(stores@).take(i as int));
                assert(views(stores@).take(i + 1).last() == stores@[i as int]@);
            }
            self.put(lifetime, stores[i].as_str(), key, value.duplicate());
            i += 1;
        }
        assert(views(stores@).take(stores@.len() as int) =~= views(stores@));
    }
}

impl CommonMetricData {
    /// The data of a metric that is enabled and has no dynamic label.
    pub fn new(category: &str, name: &str, send_in_pings: Vec<String>, lifetime: Lifetime) -> (r:
        CommonMetricData)
        ensures
            r@ == (MetaModel {
                name: name@,
                category: category@,
                send_in_pings: views(send_in_pings@),
                lifetime,
                disabled: false,
                dynamic_label: None,
            }),
    {
        CommonMetricData {
            name: name.to_owned(),
            category: category.to_owned(),
            send_in_pings,
            lifetime,
            disabled: false,
            dynamic_label: None,
        }
    }

    /// A copy of this data.
    pub fn duplicate(&self) -> (r: CommonMetricData)
        ensures
            r@ == self@,
    {
        CommonMetricData {
            name: self.name.clone(),
            category: self.category.clone(),
            send_in_pings: copy_strings(&self.send_in_pings),
            lifetime: self.lifetime,
            disabled: self.disabled,
            dynamic_label: match &self.dynamic_label {
                Some(l) => Some(l.clone()),
                None => None,
            },
        }
    }

    /// The metric's identifier without regard to a dynamic label.
    pub fn base_identifier(&self) -> (r: String)
        ensures
            r@ == base_identifier(self@),
    {
        if self.category.as_str().unicode_len() == 0 {
            self.name.clone()
        } else {
            let r = concat3(self.category.as_str(), ".", self.name.as_str());
            proof {
                reveal_strlit(".");
                assert("."@ =~= seq!['.']);
            }
            r
        }
    }

    /// Whether values are recorded for this metric: it is not disabled and
    /// upload is enabled.
    pub fn should_record(&self, glean: &Glean) -> (r: bool)
        ensures
            r == (!self.disabled && glean.upload_enabled),
    {
        !self.disabled && glean.is_upload_enabled()
    }

    /// The identifier that this metric is recorded under. Working it out
    /// resolves a dynamic label.
    pub fn identifier(&self, glean: &mut Glean) -> (r: String)
        ensures
            r@ == identifier_of(recorded(*old(glean)), self@),
            recorded(*final(glean)) == identified(recorded(*old(glean)), old(glean).upload_enabled, self@),
            same_configuration(*final(glean), *old(glean)),
    {
        match &self.dynamic_label {
            Some(label) => validate_dynamic_label(glean, self, label.as_str()),
            None => self.base_identifier(),
        }
    }
}

/// Reports `count` errors of one kind against a metric, where upload is
/// enabled. A count that is not positive is itself an error of kind invalid
/// value against the counter of the errors.
pub fn record_error(glean: &mut Glean, meta: &CommonMetricData, error: ErrorType, count: i32)
    ensures
        final(glean).storage@ == (if old(glean).upload_enabled {
            error_recorded(old(glean).storage@, meta@, error, count as int)
        } else {
            old(glean).storage@
        }),
        same_settings(*final(glean), *old(glean)),
{
    if !glean.is_upload_enabled() {
        return ;
    }
    let counter = error_metric(meta, error);
    if count > 0 {
        let key = counter.base_identifier();
        glean.storage.add_in_stores(&counter.send_in_pings, Lifetime::Ping, key.as_str(), count);
    } else {
        let inner = error_metric(&counter, ErrorType::InvalidValue);
        let key = inner.base_identifier();
        glean.storage.add_in_stores(&inner.send_in_pings, Lifetime::Ping, key.as_str(), 1);
    }
}

/// The data of the counter that the errors of one kind against a metric are
/// counted in.
fn error_metric(meta: &CommonMetricData, error: ErrorType) -> (r: CommonMetricData)
    ensures
        r@ == error_meta(meta@, error),
        base_identifier(r@) == error_key(error, meta@),
{
    let identifier = meta.base_identifier();
    let stripped = match split_once(identifier.as_str(), '/') {
        Some((id, _)) => id,
        None => identifier,
    };
    let name = concat3(error.as_str(), "/", stripped.as_str());
    let mut stores = copy_strings(&meta.send_in_pings);
    if !contains_str(&stores, "metrics") {
        let ghost before = views(stores@);
        stores.push("metrics".to_owned());
        assert(views(stores@) =~= before.push("metrics"@));
    }
    proof {
        reveal_strlit("/");
        reveal_strlit("glean.error");
        assert("/"@ =~= seq!['/']);
        assert("glean.error"@.len() == 11);
    }
    CommonMetricData::new("glean.error", name.as_str(), stores, Lifetime::Ping)
}

/// The key of the counter of the errors of one kind against a metric.
fn error_metric_key(meta: &CommonMetricData, error: ErrorType) -> (r: String)
    ensures
        r@ == error_key(error, meta@),
{
    error_metric(meta, error).base_identifier()
}

/// What [`test_get_num_recorded_errors`] says where no error is counted.
pub open spec fn no_error_text(meta: MetaModel) -> Seq<char> {
    "No error recorded for "@ + base_identifier(meta) + " in 'metrics' store"@
}

/// How many errors of one kind are counted against a metric in the store
/// `metrics`; a message where none is.
pub fn test_get_num_recorded_errors(glean: &Glean, meta: &CommonMetricData, error: ErrorType) -> (r:
    Result<i32, String>)
    ensures
        match r {
            Ok(n) => lookup(glean.storage@, Lifetime::Ping, "metrics"@, error_key(error, meta@)) == Some(
                MetricModel::Counter(n as int),
            ),
            Err(text) => !(lookup(glean.storage@, Lifetime::Ping, "metrics"@, error_key(error, meta@))
                matches Some(MetricModel::Counter(_))) && text@ == no_error_text(meta@),
        },
{
    let key = error_metric_key(meta, error);
    match glean.storage.get(Lifetime::Ping, "metrics", key.as_str()) {
        Some(Metric::Counter(n)) => Ok(n),
        _ => Err(concat3("No error recorded for ", meta.base_identifier().as_str(), " in 'metrics' store")),
    }
}

/// A metric that counts.
#[derive(Debug)]
pub struct CounterMetric {
    pub meta: CommonMetricData,
}

/// The state after `amount` was added to a counter metric.
pub open spec fn counter_added(state: Recorded, upload_enabled: bool, meta: MetaModel, amount: int) -> Recorded {
    if meta.disabled || !upload_enabled {
        state
    } else if amount <= 0 {
        Recorded { records: with_error(state.records, meta, ErrorType::InvalidValue, 1), ..state }
    } else {
        let found = identified(state, true, meta);
        Recorded {
            records: add_in_stores(
                found.records,
                meta.send_in_pings,
                meta.lifetime,
                identifier_of(state, meta),
                amount,
            ),
            ..found
        }
    }
}

/// Adding to a counter metric whose label, if it has one, is valid adds the
/// amount, up to the largest `i32`, to the counter under the metric's
/// identifier in each of its stores.
pub proof fn lemma_counter_is_added(state: Recorded, meta: MetaModel, amount: int, store: Seq<char>)
    requires
        !meta.disabled,
        amount > 0,
        meta.send_in_pings.no_duplicates(),
        meta.send_in_pings.contains(store),
        meta.dynamic_label matches Some(label) ==> label_error(label) is None,
    ensures
        counter_at(
            counter_added(state, true, meta, amount).records,
            meta.lifetime,
            store,
            identifier_of(state, meta),
        ) == saturating_sum(
            counter_at(state.records, meta.lifetime, store, identifier_of(state, meta)),
            amount,
        ),
{
    lemma_counter_after_add(
        state.records,
        meta.send_in_pings,
        meta.lifetime,
        identifier_of(state, meta),
        amount,
        store,
    );
}

/// The store that a metric's value is read from: the one asked for, else
/// the first that the metric is recorded in.
pub open spec fn queried_store(meta: MetaModel, ping_name: Option<Seq<char>>) -> Option<Seq<char>> {
    match ping_name {
        Some(name) => Some(name),
        None => if meta.send_in_pings.len() > 0 {
            Some(meta.send_in_pings[0])
        } else {
            None
        },
    }
}

/// The value recorded for a metric in the store that is read from.
pub open spec fn stored_value(state: Recorded, meta: MetaModel, ping_name: Option<Seq<char>>) -> Option<
    MetricModel,
> {
    match queried_store(meta, ping_name) {
        Some(store) => lookup(state.records, meta.lifetime, store, identifier_of(state, meta)),
        None => None,
    }
}

/// The value recorded for a metric in the store that is read from.
fn read_value(glean: &Glean, meta: &CommonMetricData, ping_name: Option<&str>) -> (r: Option<Metric>)
    ensures
        match r {
            Some(v) => stored_value(
                recorded(*glean),
                meta@,
                match ping_name {
                    Some(n) => Some(n@),
                    None => None,
                },
            ) == Some(v@),
            None => stored_value(
                recorded(*glean),
                meta@,
                match ping_name {
                    Some(n) => Some(n@),
                    None => None,
                },
            ) is None,
        },
{
    let key = match &meta.dynamic_label {
        Some(label) => resolve_dynamic_label(glean, meta, label.as_str()),
        None => meta.base_identifier(),
    };
    match ping_name {
        Some(name) => glean.storage.get(meta.lifetime, name, key.as_str()),
        None => {
            if meta.send_in_pings.len() > 0 {
                assert(views(meta.send_in_pings@)[0] == meta.send_in_pings@[0]@);
                glean.storage.get(meta.lifetime, meta.send_in_pings[0].as_str(), key.as_str())
            } else {
                None
            }
        },
    }
}

impl CounterMetric {
    /// A counter metric with the given data.
    pub fn new(meta: CommonMetricData) -> (r: CounterMetric)
        ensures
            r.meta == meta,
    {
        CounterMetric { meta }
    }

    /// The metric's data.
    pub fn meta(&self) -> (r: &CommonMetricData)
        ensures
            *r == self.meta,
    {
        &self.meta
    }

    /// Adds `amount` to the counter in each of the metric's stores. An
    /// amount that is not positive counts as an error of kind invalid value
    /// and changes no counter. The counter stops at the largest `i32`.
    pub fn add_sync(&self, glean: &mut Glean, amount: i32)
        ensures
            recorded(*final(glean)) == counter_added(
                recorded(*old(glean)),
                old(glean).upload_enabled,
                self.meta@,
                amount as int,
            ),
            same_configuration(*final(glean), *old(glean)),
    {
        if !self.meta.should_record(glean) {
            return ;
        }
        if amount <= 0 {
            record_error(glean, &self.meta, ErrorType::InvalidValue, 1);
            return ;
        }
        let key = self.meta.identifier(glean);
        glean.storage.add_in_stores(&self.meta.send_in_pings, self.meta.lifetime, key.as_str(), amount);
    }

    /// The counter's value in the store `ping_name`, or in the first of the
    /// metric's stores where none is named.
    pub fn get_value(&self, glean: &Glean, ping_name: Option<&str>) -> (r: Option<i32>)
        ensures
            r == (match stored_value(
                recorded(*glean),
                self.meta@,
                match ping_name {
                    Some(n) => Some(n@),
                    None => None,
                },
            ) {
                Some(MetricModel::Counter(n)) => Some(n as i32),
                _ => None,
            }),
    {
        match read_value(glean, &self.meta, ping_name) {
            Some(Metric::Counter(n)) => Some(n),
            _ => None,
        }
    }
}


/// The number of characters that a string metric keeps of a value.
pub const MAX_LENGTH_VALUE: usize = 255;

/// A value cut off after [`MAX_LENGTH_VALUE`] characters.
pub open spec fn truncated(value: Seq<char>) -> Seq<char> {
    if value.len() > MAX_LENGTH_VALUE {
        value.take(MAX_LENGTH_VALUE as int)
    } else {
        value
    }
}

/// The state after a string metric was set to `value`.
pub open spec fn string_set(state: Recorded, upload_enabled: bool, meta: MetaModel, value: Seq<char>) -> Recorded {
    if meta.disabled || !upload_enabled {
        state
    } else {
        let checked = if value.len() > MAX_LENGTH_VALUE {
            Recorded { records: with_error(state.records, meta, ErrorType::InvalidOverflow, 1), ..state }
        } else {
            state
        };
        value_set(checked, true, meta, MetricModel::String(truncated(value)))
    }
}

/// A metric that holds a string.
#[derive(Debug)]
pub struct StringMetric {
    pub meta: CommonMetricData,
}

impl StringMetric {
    /// A string metric with the given data.
    pub fn new(meta: CommonMetricData) -> (r: StringMetric)
        ensures
            r.meta == meta,
    {
        StringMetric { meta }
    }

    /// The metric's data.
    pub fn meta(&self) -> (r: &CommonMetricData)
        ensures
            *r == self.meta,
    {
        &self.meta
    }

    /// Sets the metric to `value` in each of its stores. A value of more
    /// than [`MAX_LENGTH_VALUE`] characters is cut off there and counts as
    /// an error of kind invalid overflow.
    pub fn set_sync(&self, glean: &mut Glean, value: &str)
        ensures
            recorded(*final(glean)) == string_set(
                recorded(*old(glean)),
                old(glean).upload_enabled,
                self.meta@,
                value@,
            ),
            same_configuration(*final(glean), *old(glean)),
    {
        if !self.meta.should_record(glean) {
            return ;
        }
        let x = chars_of(value);
        let kept = if x.len() > MAX_LENGTH_VALUE {
            record_error(glean, &self.meta, ErrorType::InvalidOverflow, 1);
            let r = substring(&x, 0, MAX_LENGTH_VALUE);
            assert(r@ =~= truncated(value@));
            r
        } else {
            value.to_owned()
        };
        let key = self.meta.identifier(glean);
        glean.storage.put_in_stores(
            &self.meta.send_in_pings,
            self.meta.lifetime,
            key.as_str(),
            &Metric::String(kept),
        );
    }

    /// The metric's value in the store `ping_name`, or in the first of the
    /// metric's stores where none is named.
    pub fn get_value(&self, glean: &Glean, ping_name: Option<&str>) -> (r: Option<String>)
        ensures
            match r {
                Some(s) => stored_value(
                    recorded(*glean),
                    self.meta@,
                    match ping_name {
                        Some(n) => Some(n@),
                        None => None,
                    },
                ) == Some(MetricModel::String(s@)),
                None => !(stored_value(
                    recorded(*glean),
                    self.meta@,
                    match ping_name {
                        Some(n) => Some(n@),
                        None => None,
                    },
                ) matches Some(MetricModel::String(_))),
            },
    {
        match read_value(glean, &self.meta, ping_name) {
            Some(Metric::String(s)) => Some(s),
            _ => None,
        }
    }
}

/// The state after a metric was set to `value`.
pub open spec fn value_set(state: Recorded, upload_enabled: bool, meta: MetaModel, value: MetricModel) -> Recorded {
    if meta.disabled || !upload_enabled {
        state
    } else {
        let found = identified(state, true, meta);
        Recorded {
            records: put_in_stores(
                found.records,
                meta.send_in_pings,
                meta.lifetime,
                identifier_of(state, meta),
                value,
            ),
            ..found
        }
    }
}

/// A metric that holds a boolean.
#[derive(Debug)]
pub struct BooleanMetric {
    pub meta: CommonMetricData,
}

impl BooleanMetric {
    /// A boolean metric with the given data.
    pub fn new(meta: CommonMetricData) -> (r: BooleanMetric)
        ensures
            r.meta == meta,
    {
        BooleanMetric { meta }
    }

    /// The metric's data.
    pub fn meta(&self) -> (r: &CommonMetricData)
        ensures
            *r == self.meta,
    {
        &self.meta
    }

    /// Sets the metric to `value` in each of its stores.
    pub fn set_sync(&self, glean: &mut Glean, value: bool)
        ensures
            recorded(*final(glean)) == value_set(
                recorded(*old(glean)),
                old(glean).upload_enabled,
                self.meta@,
                MetricModel::Boolean(value),
            ),
            same_configuration(*final(glean), *old(glean)),
    {
        if !self.meta.should_record(glean) {
            return ;
        }
        let key = self.meta.identifier(glean);
        glean.storage.put_in_stores(
            &self.meta.send_in_pings,
            self.meta.lifetime,
            key.as_str(),
            &Metric::Boolean(value),
        );
    }

    /// The metric's value in the store `ping_name`, or in the first of the
    /// metric's stores where none is named.
    pub fn get_value(&self, glean: &Glean, ping_name: Option<&str>) -> (r: Option<bool>)
        ensures
            r == (match stored_value(
                recorded(*glean),
                self.meta@,
                match ping_name {
                    Some(n) => Some(n@),
                    None => None,
                },
            ) {
                Some(MetricModel::Boolean(b)) => Some(b),
                _ => None,
            }),
    {
        match read_value(glean, &self.meta, ping_name) {
            Some(Metric::Boolean(b)) => Some(b),
            _ => None,
        }
    }
}

/// The state after a quantity metric was set to `value`: a negative value
/// counts as an error of kind invalid value and sets nothing.
pub open spec fn quantity_set(state: Recorded, upload_enabled: bool, meta: MetaModel, value: int) -> Recorded {
    if meta.disabled || !upload_enabled {
        state
    } else if value < 0 {
        Recorded { records: with_error(state.records, meta, ErrorType::InvalidValue, 1), ..state }
    } else {
        value_set(state, upload_enabled, meta, MetricModel::Quantity(value))
    }
}

/// A metric that holds a quantity.
#[derive(Debug)]
pub struct QuantityMetric {
    pub meta: CommonMetricData,
}

impl QuantityMetric {
    /// A quantity metric with the given data.
    pub fn new(meta: CommonMetricData) -> (r: QuantityMetric)
        ensures
            r.meta == meta,
    {
        QuantityMetric { meta }
    }

    /// The metric's data.
    pub fn meta(&self) -> (r: &CommonMetricData)
        ensures
            *r == self.meta,
    {
        &self.meta
    }

    /// Sets the metric to `value` in each of its stores. A negative value
    /// counts as an error of kind invalid value and sets nothing.
    pub fn set_sync(&self, glean: &mut Glean, value: i64)
        ensures
            recorded(*final(glean)) == quantity_set(
                recorded(*old(glean)),
                old(glean).upload_enabled,
                self.meta@,
                value as int,
            ),
            same_configuration(*final(glean), *old(glean)),
    {
        if !self.meta.should_record(glean) {
            return ;
        }
        if value < 0 {
            record_error(glean, &self.meta, ErrorType::InvalidValue, 1);
            return ;
        }
        let key = self.meta.identifier(glean);
        glean.storage.put_in_stores(
            &self.meta.send_in_pings,
            self.meta.lifetime,
            key.as_str(),
            &Metric::Quantity(value),
        );
    }

    /// The metric's value in the store `ping_name`, or in the first of the
    /// metric's stores where none is named.
    pub fn get_value(&self, glean: &Glean, ping_name: Option<&str>) -> (r: Option<i64>)
        ensures
            r == (match stored_value(
                recorded(*glean),
                self.meta@,
                match ping_name {
                    Some(n) => Some(n@),
                    None => None,
                },
            ) {
                Some(MetricModel::Quantity(n)) => Some(n as i64),
                _ => None,
            }),
    {
        match read_value(glean, &self.meta, ping_name) {
            Some(Metric::Quantity(n)) => Some(n),
            _ => None,
        }
    }
}

impl Default for Lifetime {
    fn default() -> (r: Lifetime)
        ensures
            r == Lifetime::Ping,
    {
        Lifetime::Ping
    }
}

impl Default for CommonMetricData {
    fn default() -> (r: CommonMetricData)
        ensures
            r@ == (MetaModel {
                name: Seq::empty(),
                category: Seq::empty(),
                send_in_pings: Seq::empty(),
                lifetime: Lifetime::Ping,
                disabled: false,
                dynamic_label: None,
            }),
    {
        let r = CommonMetricData {
            name: String::new(),
            category: String::new(),
            send_in_pings: Vec::new(),
            lifetime: Lifetime::Ping,
            disabled: false,
            dynamic_label: None,
        };
        assert(r@.send_in_pings =~= Seq::<Seq<char>>::empty());
        r
    }
}

} // verus!
