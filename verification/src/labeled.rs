//! Labeled metrics: how a requested label is checked and resolved to the
//! key that values are recorded under, with a cap on the number of labels
//! that have a bucket of their own.
//!
//! Which labels have a bucket is held in the label registry, metric by
//! metric. A metric enters the registry when a label of it is first
//! resolved, with the labels that have a value in storage at that time. A
//! label is resolved when a value is recorded through its sub-metric, not
//! when the sub-metric is made: the first [`MAX_LABELS`] labels that are
//! recorded win the buckets. The registry lasts until upload is disabled.

use crate::glean::Glean;
use crate::metrics::{
    add_in_stores, base_identifier, counter_added, counter_at, error_key, error_stores,
    lemma_counter_after_add, record_error, same_configuration, saturating_sum, with_error,
    BooleanMetric, CommonMetricData, CounterMetric, ErrorType, MetaModel, QuantityMetric,
    StringMetric,
};
use crate::storage::{
    has_record, lemma_has_first, position, put_model, Database, Lifetime, MetricModel, RecordModel,
    Records,
};
use crate::text::{
    chars_of, concat, concat3, contains_str, copy_strings, has_prefix, same_strings, starts_with,
    str_eq, views,
};
use vstd::prelude::*;

verus! {

/// The number of labels that a metric with dynamic labels keeps.
pub const MAX_LABELS: usize = 16;

/// The number of characters that a label may have.
pub const MAX_LABEL_LENGTH: usize = 111;

/// The label that takes the place of every label that is not kept.
pub const OTHER_LABEL: &'static str = "__other__";

/// The character may stand in a label: an ASCII letter or digit, `.`, `_`,
/// `-`, or any character outside ASCII.
pub open spec fn label_char(c: char) -> bool {
    let n = c as u32;
    ||| 0x30 <= n <= 0x39
    ||| 0x41 <= n <= 0x5A
    ||| 0x61 <= n <= 0x7A
    ||| n == 0x2E
    ||| n == 0x5F
    ||| n == 0x2D
    ||| n > 0x7F
}

/// Every character of the label may stand in a label.
pub open spec fn label_pattern(label: Seq<char>) -> bool {
    forall|i: int| 0 <= i < label.len() ==> label_char(#[trigger] label[i])
}

/// What is wrong with a requested label, if anything: a label of more than
/// [`MAX_LABEL_LENGTH`] characters is an overflow, a shorter one that breaks
/// the pattern is an invalid label.
pub open spec fn label_error(label: Seq<char>) -> Option<ErrorType> {
    if label.len() > MAX_LABEL_LENGTH {
        Some(ErrorType::InvalidOverflow)
    } else if !label_pattern(label) {
        Some(ErrorType::InvalidLabel)
    } else {
        None
    }
}

/// The key of a label of a metric: the metric's identifier, a `/` and the
/// label.
pub open spec fn label_key(base: Seq<char>, label: Seq<char>) -> Seq<char> {
    base + seq!['/'] + label
}

/// A value at the place is a value of the metric under a label other than
/// [`OTHER_LABEL`].
pub open spec fn is_label_place(lifetime: Lifetime, store: Seq<char>, key: Seq<char>, meta: MetaModel) -> bool {
    &&& lifetime == meta.lifetime
    &&& meta.send_in_pings.contains(store)
    &&& has_prefix(key, base_identifier(meta) + seq!['/'])
    &&& key != label_key(base_identifier(meta), OTHER_LABEL@)
}

/// The record holds a value of the metric under a label other than
/// [`OTHER_LABEL`].
pub open spec fn holds_label(r: RecordModel, meta: MetaModel) -> bool {
    is_label_place(r.lifetime, r.store, r.key, meta)
}

/// The keys of the labels of a metric that have a value in storage: those
/// under which a value stands in one of the metric's stores, each once, in
/// the records' order.
pub open spec fn kept_labels(records: Records, meta: MetaModel) -> Seq<Seq<char>>
    decreases records.len(),
{
    if records.len() == 0 {
        Seq::empty()
    } else {
        let before = kept_labels(records.drop_last(), meta);
        let last = records.last();
        if holds_label(last, meta) && !before.contains(last.key) {
            before.push(last.key)
        } else {
            before
        }
    }
}

/// The labels that the registry starts from for a metric that it does not
/// know yet: the labels that have a value in storage, the first
/// [`MAX_LABELS`] of them at most.
pub open spec fn seed_labels(records: Records, meta: MetaModel) -> Seq<Seq<char>> {
    let kept = kept_labels(records, meta);
    if kept.len() > MAX_LABELS {
        kept.take(MAX_LABELS as int)
    } else {
        kept
    }
}

/// The labels that a metric has a bucket for: the metric is known by its
/// identifier, its lifetime and its stores, and the labels are held as the
/// keys that values are recorded under, in the order in which they won
/// their bucket.
#[derive(Debug)]
pub struct LabelEntry {
    pub base: String,
    pub lifetime: Lifetime,
    pub stores: Vec<String>,
    pub labels: Vec<String>,
}

/// The mathematical value of a [`LabelEntry`].
pub struct EntryModel {
    pub base: Seq<char>,
    pub lifetime: Lifetime,
    pub stores: Seq<Seq<char>>,
    pub labels: Seq<Seq<char>>,
}

impl View for LabelEntry {
    type V = EntryModel;

    open spec fn view(&self) -> EntryModel {
        EntryModel {
            base: self.base@,
            lifetime: self.lifetime,
            stores: views(self.stores@),
            labels: views(self.labels@),
        }
    }
}

/// The entries of a label registry. Of two entries for one metric the later
/// counts.
pub type Registry = Seq<EntryModel>;

/// The label registry: for each labeled metric that a label was resolved
/// for, the labels that have a bucket of their own.
#[derive(Debug)]
pub struct LabelRegistry {
    pub entries: Vec<LabelEntry>,
}

impl View for LabelRegistry {
    type V = Registry;

    open spec fn view(&self) -> Registry {
        Seq::new(self.entries@.len(), |i: int| self.entries@[i]@)
    }
}

/// What recording works on: the recorded values and the label registry.
pub struct Recorded {
    pub records: Records,
    pub registry: Registry,
}

/// The recorded values and the label registry of a state.
pub open spec fn recorded(glean: Glean) -> Recorded {
    Recorded { records: glean.storage@, registry: glean.label_registry@ }
}

/// The entry is that of the metric.
pub open spec fn is_entry_of(entry: EntryModel, meta: MetaModel) -> bool {
    entry.base == base_identifier(meta) && entry.lifetime == meta.lifetime && entry.stores
        == meta.send_in_pings
}

/// The entry of a metric with the given labels.
pub open spec fn entry_for(meta: MetaModel, labels: Seq<Seq<char>>) -> EntryModel {
    EntryModel {
        base: base_identifier(meta),
        lifetime: meta.lifetime,
        stores: meta.send_in_pings,
        labels,
    }
}

/// The labels that the registry holds for a metric, if it knows the metric.
pub open spec fn entry_labels(registry: Registry, meta: MetaModel) -> Option<Seq<Seq<char>>>
    decreases registry.len(),
{
    if registry.len() == 0 {
        None
    } else if is_entry_of(registry.last(), meta) {
        Some(registry.last().labels)
    } else {
        entry_labels(registry.drop_last(), meta)
    }
}

/// The registry after the labels of a metric were set: in place of the
/// metric's entry, or as a new first entry.
pub open spec fn with_entry(registry: Registry, meta: MetaModel, labels: Seq<Seq<char>>) -> Registry
    decreases registry.len(),
{
    if registry.len() == 0 {
        seq![entry_for(meta, labels)]
    } else if is_entry_of(registry.last(), meta) {
        registry.drop_last().push(entry_for(meta, labels))
    } else {
        with_entry(registry.drop_last(), meta, labels).push(registry.last())
    }
}

/// The labels that a metric has a bucket for: those that the registry
/// holds for it, or, for a metric that the registry does not know yet,
/// those that it is rebuilt from.
pub open spec fn registry_labels(state: Recorded, meta: MetaModel) -> Seq<Seq<char>> {
    match entry_labels(state.registry, meta) {
        Some(labels) => labels,
        None => seed_labels(state.records, meta),
    }
}

/// The key that a requested label resolves to. A label without an error
/// resolves to itself if it has a bucket, or if fewer than [`MAX_LABELS`]
/// labels have one. Every other label resolves to [`OTHER_LABEL`].
pub open spec fn dynamic_key(state: Recorded, meta: MetaModel, label: Seq<char>) -> Seq<char> {
    let base = base_identifier(meta);
    let labels = registry_labels(state, meta);
    if label_error(label) is None && (labels.contains(label_key(base, label)) || labels.len()
        < MAX_LABELS) {
        label_key(base, label)
    } else {
        label_key(base, OTHER_LABEL@)
    }
}

/// The labels that have a bucket after a label was resolved: the requested
/// label wins a bucket if it has no error, is not [`OTHER_LABEL`], has no
/// bucket yet, and fewer than [`MAX_LABELS`] labels have one.
pub open spec fn resolved_labels(labels: Seq<Seq<char>>, meta: MetaModel, label: Seq<char>) -> Seq<Seq<char>> {
    let base = base_identifier(meta);
    let key = label_key(base, label);
    if label_error(label) is None && key != label_key(base, OTHER_LABEL@) && !labels.contains(key)
        && labels.len() < MAX_LABELS {
        labels.push(key)
    } else {
        labels
    }
}

/// The state after a requested label was resolved: the registry holds the
/// metric with the labels that have a bucket now, and a label with an error
/// counts as one error of its kind against the metric where upload is
/// enabled.
pub open spec fn resolved(state: Recorded, upload_enabled: bool, meta: MetaModel, label: Seq<char>) -> Recorded {
    Recorded {
        records: match label_error(label) {
            Some(error) => if upload_enabled {
                with_error(state.records, meta, error, 1)
            } else {
                state.records
            },
            None => state.records,
        },
        registry: with_entry(
            state.registry,
            meta,
            resolved_labels(registry_labels(state, meta), meta, label),
        ),
    }
}

/// The label to use for a requested label of a metric with a fixed list of
/// labels: the label itself where the list holds it, else [`OTHER_LABEL`].
pub open spec fn static_label_text(labels: Seq<Seq<char>>, label: Seq<char>) -> Seq<char> {
    if labels.contains(label) {
        label
    } else {
        OTHER_LABEL@
    }
}

/// What is wrong with a requested label, if anything.
pub fn check_label(label: &str) -> (r: Option<ErrorType>)
    ensures
        r == label_error(label@),
{
    let x = chars_of(label);
    if x.len() > MAX_LABEL_LENGTH {
        return Some(ErrorType::InvalidOverflow);
    }
    let mut i: usize = 0;
    while i < x.len()
        invariant
            i <= x@.len(),
            x@ == label@,
            x@.len() <= MAX_LABEL_LENGTH,
            forall|j: int| 0 <= j < i ==> label_char(#[trigger] x@[j]),
        decreases x@.len() - i,
    {
        let n: u32 = x[i] as u32;
        let ok = (0x30 <= n && n <= 0x39) || (0x41 <= n && n <= 0x5A) || (0x61 <= n && n <= 0x7A) || n
            == 0x2E || n == 0x5F || n == 0x2D || n > 0x7F;
        if !ok {
            assert(!label_char(x@[i as int]));
            return Some(ErrorType::InvalidLabel);
        }
        i += 1;
    }
    None
}

/// The label to use for a requested label of a metric with a fixed list of
/// labels.
pub fn static_label(labels: &Vec<String>, label: &str) -> (r: String)
    ensures
        r@ == static_label_text(views(labels@), label@),
        views(labels@).contains(r@) || r@ == OTHER_LABEL@,
{
    if contains_str(labels, label) {
        label.to_owned()
    } else {
        OTHER_LABEL.to_owned()
    }
}

/// The key of a label of a metric.
fn make_label_key(base: &str, label: &str) -> (r: String)
    ensures
        r@ == label_key(base@, label@),
{
    let r = concat3(base, "/", label);
    proof {
        reveal_strlit("/");
        assert("/"@ =~= seq!['/']);
    }
    r
}

/// The keys of the labels that the metric keeps.
fn collect_kept_labels(db: &Database, meta: &CommonMetricData) -> (r: Vec<String>)
    ensures
        views(r@) == kept_labels(db@, meta@),
{
    let base = meta.base_identifier();
    let prefix = concat(base.as_str(), "/");
    let other = make_label_key(base.as_str(), OTHER_LABEL);
    proof {
        reveal_strlit("/");
        assert("/"@ =~= seq!['/']);
    }
    let mut out: Vec<String> = Vec::new();
    let mut i: usize = 0;
    assert(db@.take(0) =~= Records::empty());
    assert(views(out@) =~= Seq::<Seq<char>>::empty());
    while i < db.records.len()
        invariant
            i <= db.records@.len(),
            prefix@ == base_identifier(meta@) + seq!['/'],
            other@ == label_key(base_identifier(meta@), OTHER_LABEL@),
            views(out@) == kept_labels(db@.take(i as int), meta@),
        decreases db.records@.len() - i,
    {
        let r = &db.records[i];
        proof {
            assert(db@.take(i + 1).drop_last() =~= db@.take(i as int));
            assert(db@.take(i + 1).last() == r@);
        }
        if r.lifetime == meta.lifetime && contains_str(&meta.send_in_pings, r.store.as_str())
            && starts_with(r.key.as_str(), prefix.as_str()) && !str_eq(r.key.as_str(), other.as_str())
            && !contains_str(&out, r.key.as_str()) {
            let ghost before = views(out@);
            out.push(r.key.clone());
            assert(views(out@) =~= before.push(r.key@));
        }
        i += 1;
    }
    assert(db@.take(db.records@.len() as int) =~= db@);
    out
}

/// Where the later entries of a registry are not those of a metric, the
/// metric's labels and the setting of them are those of the earlier entries.
proof fn lemma_unmatched_suffix(registry: Registry, meta: MetaModel, labels: Seq<Seq<char>>, i: int)
    requires
        0 <= i <= registry.len(),
        forall|j: int| i <= j < registry.len() ==> !is_entry_of(#[trigger] registry[j], meta),
    ensures
        entry_labels(registry, meta) == entry_labels(registry.take(i), meta),
        with_entry(registry, meta, labels) == with_entry(registry.take(i), meta, labels) + registry.skip(
            i,
        ),
    decreases registry.len() - i,
{
    if i == registry.len() {
        assert(registry.take(i) =~= registry);
        assert(with_entry(registry, meta, labels) + registry.skip(i) =~= with_entry(
            registry,
            meta,
            labels,
        ));
    } else {
        let rest = registry.drop_last();
        assert(!is_entry_of(registry[registry.len() - 1], meta));
        assert forall|j: int| i <= j < rest.len() implies !is_entry_of(#[trigger] rest[j], meta) by {
            assert(rest[j] == registry[j]);
        }
        lemma_unmatched_suffix(rest, meta, labels, i);
        assert(rest.take(i) =~= registry.take(i));
        assert((with_entry(rest.take(i), meta, labels) + rest.skip(i)).push(registry.last())
            =~= with_entry(registry.take(i), meta, labels) + registry.skip(i));
    }
}

/// The labels that were set for a metric are the labels that the registry
/// holds for it.
pub proof fn lemma_entry_is_set(registry: Registry, meta: MetaModel, labels: Seq<Seq<char>>)
    ensures
        entry_labels(with_entry(registry, meta, labels), meta) == Some(labels),
    decreases registry.len(),
{
    if registry.len() == 0 {
    } else if is_entry_of(registry.last(), meta) {
    } else {
        lemma_entry_is_set(registry.drop_last(), meta, labels);
        let after = with_entry(registry.drop_last(), meta, labels).push(registry.last());
        assert(after.drop_last() =~= with_entry(registry.drop_last(), meta, labels));
    }
}

impl LabelRegistry {
    /// A registry that knows no metric.
    pub fn new() -> (r: LabelRegistry)
        ensures
            r@ == Registry::empty(),
    {
        let r = LabelRegistry { entries: Vec::new() };
        assert(r@ =~= Registry::empty());
        r
    }

    /// Forgets every metric.
    pub fn clear(&mut self)
        ensures
            final(self)@ == Registry::empty(),
    {
        self.entries = Vec::new();
        assert(self@ =~= Registry::empty());
    }

    /// The position of the last entry of a metric.
    fn find(&self, meta: &CommonMetricData) -> (r: Option<usize>)
        ensures
            match r {
                Some(i) => i < self@.len() && is_entry_of(self@[i as int], meta@) && forall|j: int|
                    i < j < self@.len() ==> !is_entry_of(#[trigger] self@[j], meta@),
                None => forall|j: int| 0 <= j < self@.len() ==> !is_entry_of(#[trigger] self@[j], meta@),
            },
    {
        let base = meta.base_identifier();
        let mut i: usize = self.entries.len();
        while i > 0
            invariant
                i <= self.entries@.len(),
                base@ == base_identifier(meta@),
                forall|j: int| i <= j < self@.len() ==> !is_entry_of(#[trigger] self@[j], meta@),
            decreases i,
        {
            let e = &self.entries[i - 1];
            if e.lifetime == meta.lifetime && str_eq(e.base.as_str(), base.as_str()) && same_strings(
                &e.stores,
                &meta.send_in_pings,
            ) {
                return Some(i - 1);
            }
            i -= 1;
        }
        None
    }

    /// The labels that the registry holds for a metric, if it knows the
    /// metric.
    pub fn labels_of(&self, meta: &CommonMetricData) -> (r: Option<Vec<String>>)
        ensures
            match r {
                Some(labels) => entry_labels(self@, meta@) == Some(views(labels@)),
                None => entry_labels(self@, meta@) is None,
            },
    {
        match self.find(meta) {
            Some(i) => {
                proof {
                    lemma_unmatched_suffix(self@, meta@, Seq::empty(), i + 1);
                    assert(self@.take(i + 1).last() == self@[i as int]);
                }
                Some(copy_strings(&self.entries[i].labels))
            },
            None => {
                proof {
                    lemma_unmatched_suffix(self@, meta@, Seq::empty(), 0);
                }
                None
            },
        }
    }

    /// Sets the labels that the registry holds for a metric.
    pub fn set_labels(&mut self, meta: &CommonMetricData, labels: Vec<String>)
        ensures
            final(self)@ == with_entry(old(self)@, meta@, views(labels@)),
    {
        let ghost l = views(labels@);
        let entry = LabelEntry {
            base: meta.base_identifier(),
            lifetime: meta.lifetime,
            stores: copy_strings(&meta.send_in_pings),
            labels,
        };
        assert(entry@ == entry_for(meta@, l));
        match self.find(meta) {
            Some(i) => {
                proof {
                    lemma_unmatched_suffix(self@, meta@, l, i + 1);
                    assert(self@.take(i + 1).last() == self@[i as int]);
                }
                self.entries.set(i, entry);
                assert(self@ =~= old(self)@.take(i + 1).drop_last().push(entry_for(meta@, l)) + old(
                    self,
                )@.skip(i + 1));
            },
            None => {
                proof {
                    lemma_unmatched_suffix(self@, meta@, l, 0);
                }
                self.entries.insert(0, entry);
                assert(self@ =~= seq![entry_for(meta@, l)] + old(self)@.skip(0));
            },
        }
    }
}

/// The labels that a metric has a bucket for.
fn current_labels(glean: &Glean, meta: &CommonMetricData) -> (r: Vec<String>)
    ensures
        views(r@) == registry_labels(recorded(*glean), meta@),
{
    match glean.label_registry.labels_of(meta) {
        Some(labels) => labels,
        None => {
            let mut kept = collect_kept_labels(&glean.storage, meta);
            let ghost all = views(kept@);
            if kept.len() > MAX_LABELS {
                kept.truncate(MAX_LABELS);
                assert(views(kept@) =~= all.take(MAX_LABELS as int));
            }
            kept
        },
    }
}

/// The key that a requested label of a metric resolves to.
pub fn resolve_dynamic_label(glean: &Glean, meta: &CommonMetricData, label: &str) -> (r: String)
    ensures
        r@ == dynamic_key(recorded(*glean), meta@, label@),
{
    let base = meta.base_identifier();
    if check_label(label).is_some() {
        return make_label_key(base.as_str(), OTHER_LABEL);
    }
    let key = make_label_key(base.as_str(), label);
    let labels = current_labels(glean, meta);
    if contains_str(&labels, key.as_str()) || labels.len() < MAX_LABELS {
        key
    } else {
        make_label_key(base.as_str(), OTHER_LABEL)
    }
}

/// Resolves a requested label of a metric to the key that values are
/// recorded under. The registry then holds the metric; the label has a
/// bucket of its own from now on if it won one. A label with an error
/// counts as one error of its kind against the metric, where upload is
/// enabled.
pub fn validate_dynamic_label(glean: &mut Glean, meta: &CommonMetricData, label: &str) -> (r: String)
    ensures
        r@ == dynamic_key(recorded(*old(glean)), meta@, label@),
        recorded(*final(glean)) == resolved(
            recorded(*old(glean)),
            old(glean).upload_enabled,
            meta@,
            label@,
        ),
        same_configuration(*final(glean), *old(glean)),
{
    let base = meta.base_identifier();
    let other = make_label_key(base.as_str(), OTHER_LABEL);
    let key = make_label_key(base.as_str(), label);
    let mut labels = current_labels(glean, meta);
    let error = check_label(label);
    let ghost before = views(labels@);
    let resolved_key = if error.is_none() && (contains_str(&labels, key.as_str()) || labels.len()
        < MAX_LABELS) {
        if !str_eq(key.as_str(), other.as_str()) && !contains_str(&labels, key.as_str()) {
            labels.push(key.clone());
            assert(views(labels@) =~= before.push(key@));
        }
        key
    } else {
        other
    };
    glean.label_registry.set_labels(meta, labels);
    match error {
        Some(error) => {
            record_error(glean, meta, error, 1);
        },
        None => {},
    }
    resolved_key
}

/// A metric with a fixed list of labels records under no label but those of
/// the list and [`OTHER_LABEL`]: a requested label of the list stands for
/// itself, any other for [`OTHER_LABEL`].
pub proof fn lemma_static_labels(labels: Seq<Seq<char>>, label: Seq<char>)
    ensures
        labels.contains(label) ==> static_label_text(labels, label) == label,
        !labels.contains(label) ==> static_label_text(labels, label) == OTHER_LABEL@,
        labels.contains(static_label_text(labels, label)) || static_label_text(labels, label)
            == OTHER_LABEL@,
{
}

/// Adding to the counter for a label of more than [`MAX_LABEL_LENGTH`]
/// characters counts one error of kind invalid overflow against the metric,
/// in each of the stores that its errors are counted in, and then adds the
/// amount under [`OTHER_LABEL`].
pub proof fn lemma_label_too_long(state: Recorded, meta: MetaModel, label: Seq<char>, amount: int)
    requires
        label.len() > MAX_LABEL_LENGTH,
        meta.dynamic_label == Some(label),
        !meta.disabled,
        amount > 0,
    ensures
        dynamic_key(state, meta, label) == label_key(base_identifier(meta), OTHER_LABEL@),
        counter_added(state, true, meta, amount).records == add_in_stores(
            with_error(state.records, meta, ErrorType::InvalidOverflow, 1),
            meta.send_in_pings,
            meta.lifetime,
            label_key(base_identifier(meta), OTHER_LABEL@),
            amount,
        ),
        error_stores(meta.send_in_pings).no_duplicates() ==> forall|store: Seq<char>|
            error_stores(meta.send_in_pings).contains(store) ==> counter_at(
                with_error(state.records, meta, ErrorType::InvalidOverflow, 1),
                Lifetime::Ping,
                store,
                #[trigger] error_key(ErrorType::InvalidOverflow, meta),
            ) == saturating_sum(
                counter_at(
                    state.records,
                    Lifetime::Ping,
                    store,
                    error_key(ErrorType::InvalidOverflow, meta),
                ),
                1,
            ),
{
    if error_stores(meta.send_in_pings).no_duplicates() {
        assert forall|store: Seq<char>| error_stores(meta.send_in_pings).contains(store) implies counter_at(
            with_error(state.records, meta, ErrorType::InvalidOverflow, 1),
            Lifetime::Ping,
            store,
            #[trigger] error_key(ErrorType::InvalidOverflow, meta),
        ) == saturating_sum(
            counter_at(state.records, Lifetime::Ping, store, error_key(ErrorType::InvalidOverflow, meta)),
            1,
        ) by {
            lemma_counter_after_add(
                state.records,
                error_stores(meta.send_in_pings),
                Lifetime::Ping,
                error_key(ErrorType::InvalidOverflow, meta),
                1,
                store,
            );
        }
    }
}

/// A metric never has more than [`MAX_LABELS`] buckets of its own: the
/// labels that the registry is rebuilt from are at most that many, and
/// resolving a label leaves their number at or below the cap.
pub proof fn lemma_cap_is_kept(
    state: Recorded,
    upload_enabled: bool,
    meta: MetaModel,
    label: Seq<char>,
)
    ensures
        seed_labels(state.records, meta).len() <= MAX_LABELS,
        registry_labels(state, meta).len() <= MAX_LABELS ==> registry_labels(
            resolved(state, upload_enabled, meta, label),
            meta,
        ).len() <= MAX_LABELS,
{
    lemma_entry_is_set(
        state.registry,
        meta,
        resolved_labels(registry_labels(state, meta), meta, label),
    );
}

/// The labels that a metric keeps depend on the places of the records
/// alone.
proof fn lemma_kept_same_places(a: Records, b: Records, meta: MetaModel)
    requires
        a.len() == b.len(),
        forall|i: int|
            0 <= i < a.len() ==> (#[trigger] a[i]).lifetime == b[i].lifetime && a[i].store == b[i].store
                && a[i].key == b[i].key,
    ensures
        kept_labels(a, meta) == kept_labels(b, meta),
    decreases a.len(),
{
    if a.len() > 0 {
        let n = a.len() - 1;
        assert forall|i: int| 0 <= i < a.drop_last().len() implies (#[trigger] a.drop_last()[i]).lifetime
            == b.drop_last()[i].lifetime && a.drop_last()[i].store == b.drop_last()[i].store
            && a.drop_last()[i].key == b.drop_last()[i].key by {
            assert(a.drop_last()[i] == a[i]);
            assert(b.drop_last()[i] == b[i]);
        }
        lemma_kept_same_places(a.drop_last(), b.drop_last(), meta);
        assert(a[n].key == b[n].key);
    }
}

/// The key of a record that holds a label of a metric is among the labels
/// that have a value in storage.
proof fn lemma_kept_member(records: Records, meta: MetaModel, i: int)
    requires
        0 <= i < records.len(),
        holds_label(records[i], meta),
    ensures
        kept_labels(records, meta).contains(records[i].key),
    decreases records.len(),
{
    let rest = records.drop_last();
    let last = records.last();
    let before = kept_labels(rest, meta);
    let kept = kept_labels(records, meta);
    if i < records.len() - 1 {
        assert(rest[i] == records[i]);
        lemma_kept_member(rest, meta, i);
        let j = choose|j: int| 0 <= j < before.len() && before[j] == records[i].key;
        assert(kept[j] == records[i].key);
    } else {
        if before.contains(last.key) {
            let j = choose|j: int| 0 <= j < before.len() && before[j] == last.key;
            assert(kept[j] == last.key);
        } else {
            assert(kept[kept.len() - 1] == last.key);
        }
    }
}

/// Writing to a place adds its key to the labels that have a value in
/// storage if the place holds a label of the metric that has none yet, and
/// changes nothing else in them.
proof fn lemma_kept_after_put(
    records: Records,
    lifetime: Lifetime,
    store: Seq<char>,
    key: Seq<char>,
    value: MetricModel,
    meta: MetaModel,
)
    ensures
        kept_labels(put_model(records, lifetime, store, key, value), meta) == (if is_label_place(
            lifetime,
            store,
            key,
            meta,
        ) && !kept_labels(records, meta).contains(key) {
            kept_labels(records, meta).push(key)
        } else {
            kept_labels(records, meta)
        }),
{
    let r = RecordModel { lifetime, store, key, value };
    if has_record(records, lifetime, store, key) {
        lemma_has_first(records, lifetime, store, key);
        let p = position(records, lifetime, store, key);
        lemma_kept_same_places(records, records.update(p, r), meta);
        if is_label_place(lifetime, store, key, meta) {
            lemma_kept_member(records, meta, p);
        }
    } else {
        assert(records.push(r).drop_last() =~= records);
    }
}

/// Adding to the counter under a key in a list of stores adds the key to
/// the labels that have a value in storage, or changes nothing in them; it
/// changes nothing where the key is among them already or where no place
/// under the key holds a label of the metric.
proof fn lemma_kept_after_add(
    records: Records,
    stores: Seq<Seq<char>>,
    lifetime: Lifetime,
    key: Seq<char>,
    amount: int,
    meta: MetaModel,
)
    ensures
        kept_labels(add_in_stores(records, stores, lifetime, key, amount), meta) == kept_labels(
            records,
            meta,
        ) || kept_labels(add_in_stores(records, stores, lifetime, key, amount), meta) == kept_labels(
            records,
            meta,
        ).push(key),
        kept_labels(records, meta).contains(key) || (forall|s: Seq<char>|
            !is_label_place(lifetime, s, key, meta)) ==> kept_labels(
            add_in_stores(records, stores, lifetime, key, amount),
            meta,
        ) == kept_labels(records, meta),
    decreases stores.len(),
{
    if stores.len() > 0 {
        let before = add_in_stores(records, stores.drop_last(), lifetime, key, amount);
        lemma_kept_after_add(records, stores.drop_last(), lifetime, key, amount, meta);
        let value = MetricModel::Counter(
            saturating_sum(counter_at(before, lifetime, stores.last(), key), amount),
        );
        lemma_kept_after_put(before, lifetime, stores.last(), key, value, meta);
        let kept = kept_labels(records, meta);
        if kept_labels(before, meta) == kept.push(key) {
            assert(kept.push(key)[kept.len() as int] == key);
        }
    }
}

/// Every label of the metric that has a value in storage has a bucket, and
/// the metric has [`MAX_LABELS`] buckets at most.
pub open spec fn labels_within(state: Recorded, meta: MetaModel) -> bool {
    &&& registry_labels(state, meta).len() <= MAX_LABELS
    &&& forall|k: Seq<char>|
        kept_labels(state.records, meta).contains(k) ==> registry_labels(state, meta).contains(k)
}

/// The labels of a metric that have a value in storage never go beyond the
/// cap: where each of them has one of at most [`MAX_LABELS`] buckets,
/// adding to the counter for a requested label leaves it so. The metric
/// must not have the identifier of a counter that the errors against it
/// are counted in.
pub proof fn lemma_stored_labels_stay_within(state: Recorded, meta: MetaModel, label: Seq<char>, amount: int)
    requires
        labels_within(state, meta),
        meta.dynamic_label == Some(label),
        forall|error: ErrorType|
            !has_prefix(#[trigger] error_key(error, meta), base_identifier(meta) + seq!['/']),
    ensures
        labels_within(counter_added(state, true, meta, amount), meta),
{
    let base = base_identifier(meta);
    let kept = kept_labels(state.records, meta);
    let labels = registry_labels(state, meta);
    if meta.disabled {
    } else if amount <= 0 {
        lemma_kept_after_add(
            state.records,
            error_stores(meta.send_in_pings),
            Lifetime::Ping,
            error_key(ErrorType::InvalidValue, meta),
            1,
            meta,
        );
    } else {
        let key = dynamic_key(state, meta, label);
        let found = resolved(state, true, meta, label);
        let after = counter_added(state, true, meta, amount);
        let labels_after = resolved_labels(labels, meta, label);
        lemma_entry_is_set(state.registry, meta, labels_after);
        assert(kept_labels(found.records, meta) == kept) by {
            match label_error(label) {
                Some(error) => {
                    lemma_kept_after_add(
                        state.records,
                        error_stores(meta.send_in_pings),
                        Lifetime::Ping,
                        error_key(error, meta),
                        1,
                        meta,
                    );
                },
                None => {},
            }
        }
        lemma_kept_after_add(found.records, meta.send_in_pings, meta.lifetime, key, amount, meta);
        let kept_after = kept_labels(after.records, meta);
        if labels_after != labels {
            assert(labels_after[labels.len() as int] == label_key(base, label));
        }
        assert forall|k: Seq<char>| kept_after.contains(k) implies labels_after.contains(k) by {
            let i = choose|i: int| 0 <= i < kept_after.len() && kept_after[i] == k;
            if kept_after == kept {
                assert(kept.contains(k));
            } else {
                if i < kept.len() {
                    assert(kept[i] == k);
                    assert(kept.contains(k));
                } else {
                    assert(k == key);
                    assert(key != label_key(base, OTHER_LABEL@));
                }
            }
            if labels.contains(k) {
                let j = choose|j: int| 0 <= j < labels.len() && labels[j] == k;
                assert(labels_after[j] == k);
            }
        }
    }
}

/// Once a label was resolved, its bucket is decided and stays: it resolves
/// to the same key again, and what any label of the metric resolves to no
/// longer depends on the recorded values. So a label that went to
/// [`OTHER_LABEL`] stays there after a read that clears the store, and a
/// label with a bucket keeps it, as long as the registry is kept.
pub proof fn lemma_bucket_is_stable(
    state: Recorded,
    upload_enabled: bool,
    meta: MetaModel,
    label: Seq<char>,
    asked: Seq<char>,
    records: Records,
)
    ensures
        dynamic_key(resolved(state, upload_enabled, meta, label), meta, label) == dynamic_key(
            state,
            meta,
            label,
        ),
        dynamic_key(
            Recorded { records, registry: resolved(state, upload_enabled, meta, label).registry },
            meta,
            asked,
        ) == dynamic_key(resolved(state, upload_enabled, meta, label), meta, asked),
        dynamic_key(state, meta, asked) == label_key(base_identifier(meta), OTHER_LABEL@)
            ==> dynamic_key(
            Recorded { records, registry: resolved(state, upload_enabled, meta, label).registry },
            meta,
            asked,
        ) == label_key(base_identifier(meta), OTHER_LABEL@),
{
    let labels = registry_labels(state, meta);
    let after = resolved_labels(labels, meta, label);
    lemma_entry_is_set(state.registry, meta, after);
    let key = label_key(base_identifier(meta), label);
    if after != labels {
        assert(after[labels.len() as int] == key);
        assert forall|k: Seq<char>| labels.contains(k) implies after.contains(k) by {
            let i = choose|i: int| 0 <= i < labels.len() && labels[i] == k;
            assert(after[i] == k);
        }
        let asked_key = label_key(base_identifier(meta), asked);
        if after.contains(asked_key) && !labels.contains(asked_key) {
            let i = choose|i: int| 0 <= i < after.len() && after[i] == asked_key;
            if i < labels.len() {
                assert(labels[i] == asked_key);
            }
        }
    }
}

/// The data that a labeled metric is made from.
#[derive(Debug)]
pub enum LabeledMetricData {
    /// The data of a metric without settings of its own.
    Common { cmd: CommonMetricData },
}

/// The data of the sub-metric for a requested label. With a fixed list of
/// labels the sub-metric's name is the metric's name, a `/` and the label of
/// the list that the requested one stands for. Without a list the sub-metric
/// keeps the requested label as its dynamic label.
pub open spec fn submetric_meta(meta: MetaModel, labels: Option<Seq<Seq<char>>>, label: Seq<char>) -> MetaModel {
    match labels {
        Some(list) => MetaModel { name: label_key(meta.name, static_label_text(list, label)), ..meta },
        None => MetaModel { dynamic_label: Some(label), ..meta },
    }
}

/// The views of an optional list of labels.
pub open spec fn labels_view(labels: Option<Vec<String>>) -> Option<Seq<Seq<char>>> {
    match labels {
        Some(list) => Some(views(list@)),
        None => None,
    }
}

/// The data of the sub-metric for a requested label.
fn make_submetric(meta: &CommonMetricData, labels: &Option<Vec<String>>, label: &str) -> (r:
    CommonMetricData)
    ensures
        r@ == submetric_meta(meta@, labels_view(*labels), label@),
{
    let mut sub = meta.duplicate();
    match labels {
        Some(list) => {
            let chosen = static_label(list, label);
            sub.name = make_label_key(meta.name.as_str(), chosen.as_str());
        },
        None => {
            sub.dynamic_label = Some(label.to_owned());
        },
    }
    sub
}

/// A counter metric with one counter for each label.
#[derive(Debug)]
pub struct LabeledCounter {
    pub meta: CommonMetricData,
    pub labels: Option<Vec<String>>,
}

impl LabeledCounter {
    /// A labeled counter, with a fixed list of labels or, without a list,
    /// with dynamic labels.
    pub fn new(data: LabeledMetricData, labels: Option<Vec<String>>) -> (r: LabeledCounter)
        ensures
            r.meta == data->cmd,
            r.labels == labels,
    {
        match data {
            LabeledMetricData::Common { cmd } => LabeledCounter { meta: cmd, labels },
        }
    }

    /// The counter for the label `label`.
    pub fn get(&self, label: &str) -> (r: CounterMetric)
        ensures
            r.meta@ == submetric_meta(self.meta@, labels_view(self.labels), label@),
    {
        CounterMetric::new(make_submetric(&self.meta, &self.labels, label))
    }
}

/// A string metric with one string for each label.
#[derive(Debug)]
pub struct LabeledString {
    pub meta: CommonMetricData,
    pub labels: Option<Vec<String>>,
}

impl LabeledString {
    /// A labeled string, with a fixed list of labels or, without a list,
    /// with dynamic labels.
    pub fn new(data: LabeledMetricData, labels: Option<Vec<String>>) -> (r: LabeledString)
        ensures
            r.meta == data->cmd,
            r.labels == labels,
    {
        match data {
            LabeledMetricData::Common { cmd } => LabeledString { meta: cmd, labels },
        }
    }

    /// The string metric for the label `label`.
    pub fn get(&self, label: &str) -> (r: StringMetric)
        ensures
            r.meta@ == submetric_meta(self.meta@, labels_view(self.labels), label@),
    {
        StringMetric::new(make_submetric(&self.meta, &self.labels, label))
    }
}


/// A boolean metric with one boolean for each label.
#[derive(Debug)]
pub struct LabeledBoolean {
    pub meta: CommonMetricData,
    pub labels: Option<Vec<String>>,
}

impl LabeledBoolean {
    /// A labeled boolean, with a fixed list of labels or, without a list,
    /// with dynamic labels.
    pub fn new(data: LabeledMetricData, labels: Option<Vec<String>>) -> (r: LabeledBoolean)
        ensures
            r.meta == data->cmd,
            r.labels == labels,
    {
        match data {
            LabeledMetricData::Common { cmd } => LabeledBoolean { meta: cmd, labels },
        }
    }

    /// The boolean metric for the label `label`.
    pub fn get(&self, label: &str) -> (r: BooleanMetric)
        ensures
            r.meta@ == submetric_meta(self.meta@, labels_view(self.labels), label@),
    {
        BooleanMetric::new(make_submetric(&self.meta, &self.labels, label))
    }
}

/// A quantity metric with one quantity for each label.
#[derive(Debug)]
pub struct LabeledQuantity {
    pub meta: CommonMetricData,
    pub labels: Option<Vec<String>>,
}

impl LabeledQuantity {
    /// A labeled quantity, with a fixed list of labels or, without a list,
    /// with dynamic labels.
    pub fn new(data: LabeledMetricData, labels: Option<Vec<String>>) -> (r: LabeledQuantity)
        ensures
            r.meta == data->cmd,
            r.labels == labels,
    {
        match data {
            LabeledMetricData::Common { cmd } => LabeledQuantity { meta: cmd, labels },
        }
    }

    /// The quantity metric for the label `label`.
    pub fn get(&self, label: &str) -> (r: QuantityMetric)
        ensures
            r.meta@ == submetric_meta(self.meta@, labels_view(self.labels), label@),
    {
        QuantityMetric::new(make_submetric(&self.meta, &self.labels, label))
    }
}

} // verus!
