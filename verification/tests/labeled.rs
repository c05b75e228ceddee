use glean_core::glean::{Glean, PingType};
use glean_core::labeled::{
    check_label, static_label, LabeledBoolean, LabeledCounter, LabeledMetricData, LabeledQuantity,
    LabeledString, MAX_LABEL_LENGTH,
};
use glean_core::metrics::{
    record_error, test_get_num_recorded_errors, CommonMetricData, ErrorType,
};
use glean_core::storage::{Database, Lifetime, StorageManager};
use glean_core::time::Datetime;
use serde_json::Value;

fn start_time() -> Datetime {
    Datetime {
        year: 2024,
        month: 3,
        day: 9,
        hour: 7,
        minute: 5,
        second: 2,
        nanosecond: 40_000_000,
        offset_seconds: 3600,
    }
}

fn new_test_ping(glean: &mut Glean, name: &str) -> PingType {
    glean.register_ping_type(PingType::new(name, true, false, true, true, true, vec![], vec![]));
    PingType::new(name, true, false, true, true, true, vec![], vec![])
}

/// A fresh state over what an earlier state left in storage, or over an
/// empty store. The second part is the handle that gives the storage back.
fn new_glean(storage: Option<Database>) -> (Glean, ()) {
    let mut glean = Glean::new(start_time());
    if let Some(storage) = storage {
        glean.storage = storage;
    }
    new_test_ping(&mut glean, "store1");
    (glean, ())
}

fn tempdir() -> (Database, ()) {
    (Database::new(), ())
}

fn json(text: &str) -> Value {
    serde_json::from_str(text).unwrap()
}

fn snapshot_of(glean: &mut Glean, store: &str, clear: bool) -> Value {
    let snapshot = StorageManager
        .snapshot_as_json(&mut glean.storage, store, clear)
        .unwrap();
    json(&snapshot.to_text())
}

#[test]
fn can_create_labeled_counter_metric() {
    let (mut glean, _t) = new_glean(None);
    let labeled = LabeledCounter::new(
        LabeledMetricData::Common {
            cmd: CommonMetricData {
                name: "labeled_metric".into(),
                category: "telemetry".into(),
                send_in_pings: vec!["store1".into()],
                disabled: false,
                lifetime: Lifetime::Ping,
                ..Default::default()
            },
        },
        Some(vec!["label1".into()]),
    );

    let metric = labeled.get("label1");
    metric.add_sync(&mut glean, 1);

    let snapshot = snapshot_of(&mut glean, "store1", true);

    assert_eq!(
        json(r#"{
            "labeled_counter": {
                "telemetry.labeled_metric": { "label1": 1 }
            }
        }"#),
        snapshot
    );
}

#[test]
fn can_create_labeled_string_metric() {
    let (mut glean, _t) = new_glean(None);
    let labeled = LabeledString::new(
        LabeledMetricData::Common {
            cmd: CommonMetricData {
                name: "labeled_metric".into(),
                category: "telemetry".into(),
                send_in_pings: vec!["store1".into()],
                disabled: false,
                lifetime: Lifetime::Ping,
                ..Default::default()
            },
        },
        Some(vec!["label1".into()]),
    );

    let metric = labeled.get("label1");
    metric.set_sync(&mut glean, "text");

    let snapshot = snapshot_of(&mut glean, "store1", true);

    assert_eq!(
        json(r#"{
            "labeled_string": {
                "telemetry.labeled_metric": { "label1": "text" }
            }
        }"#),
        snapshot
    );
}

#[test]
fn can_create_labeled_bool_metric() {
    let (mut glean, _t) = new_glean(None);
    let labeled = LabeledBoolean::new(
        LabeledMetricData::Common {
            cmd: CommonMetricData {
                name: "labeled_metric".into(),
                category: "telemetry".into(),
                send_in_pings: vec!["store1".into()],
                disabled: false,
                lifetime: Lifetime::Ping,
                ..Default::default()
            },
        },
        Some(vec!["label1".into()]),
    );

    let metric = labeled.get("label1");
    metric.set_sync(&mut glean, true);

    let snapshot = snapshot_of(&mut glean, "store1", true);

    assert_eq!(
        json(r#"{
            "labeled_boolean": {
                "telemetry.labeled_metric": { "label1": true }
            }
        }"#),
        snapshot
    );
}

#[test]
fn can_create_labeled_quantity_metric() {
    let (mut glean, _t) = new_glean(None);
    let labeled = LabeledQuantity::new(
        LabeledMetricData::Common {
            cmd: CommonMetricData {
                name: "labeled_metric".into(),
                category: "telemetry".into(),
                send_in_pings: vec!["store1".into()],
                disabled: false,
                lifetime: Lifetime::Ping,
                ..Default::default()
            },
        },
        Some(vec!["label1".into()]),
    );

    let metric = labeled.get("label1");
    metric.set_sync(&mut glean, 42);

    let snapshot = snapshot_of(&mut glean, "store1", true);

    assert_eq!(
        json(r#"{
            "labeled_quantity": {
                "telemetry.labeled_metric": { "label1": 42 }
            }
        }"#),
        snapshot
    );
}

#[test]
fn a_quantity_rejects_negative_values() {
    let (mut glean, _t) = new_glean(None);
    let labeled = LabeledQuantity::new(
        LabeledMetricData::Common {
            cmd: CommonMetricData::new("telemetry", "q", vec!["store1".into()], Lifetime::Ping),
        },
        None,
    );
    let metric = labeled.get("a");
    metric.set_sync(&mut glean, -1);
    assert_eq!(None, metric.get_value(&glean, None));
    assert_eq!(
        Ok(1),
        test_get_num_recorded_errors(&glean, metric.meta(), ErrorType::InvalidValue)
    );
    metric.set_sync(&mut glean, 0);
    assert_eq!(Some(0), metric.get_value(&glean, Some("store1")));
    let flag = LabeledBoolean::new(
        LabeledMetricData::Common {
            cmd: CommonMetricData::new("telemetry", "b", vec!["store1".into()], Lifetime::Ping),
        },
        None,
    )
    .get("a");
    assert_eq!(None, flag.get_value(&glean, None));
    flag.set_sync(&mut glean, false);
    assert_eq!(Some(false), flag.get_value(&glean, None));
}

#[test]
fn can_use_multiple_labels() {
    let (mut glean, _t) = new_glean(None);
    let labeled = LabeledCounter::new(
        LabeledMetricData::Common {
            cmd: CommonMetricData {
                name: "labeled_metric".into(),
                category: "telemetry".into(),
                send_in_pings: vec!["store1".into()],
                disabled: false,
                lifetime: Lifetime::Ping,
                ..Default::default()
            },
        },
        None,
    );

    let metric = labeled.get("label1");
    metric.add_sync(&mut glean, 1);

    let metric = labeled.get("label2");
    metric.add_sync(&mut glean, 2);

    let snapshot = snapshot_of(&mut glean, "store1", true);

    assert_eq!(
        json(r#"{
            "labeled_counter": {
                "telemetry.labeled_metric": {
                    "label1": 1,
                    "label2": 2
                }
            }
        }"#),
        snapshot
    );
}

#[test]
fn can_record_error_for_submetric() {
    let (mut glean, _t) = new_glean(None);
    let labeled = LabeledString::new(
        LabeledMetricData::Common {
            cmd: CommonMetricData {
                name: "labeled_metric".into(),
                category: "telemetry".into(),
                send_in_pings: vec!["store1".into()],
                disabled: false,
                lifetime: Lifetime::Ping,
                ..Default::default()
            },
        },
        Some(vec!["label1".into()]),
    );

    let metric = labeled.get("label1");
    metric.set_sync(&mut glean, &"01234567890".repeat(26));

    // Make sure that the errors have been recorded
    assert_eq!(
        Ok(1),
        test_get_num_recorded_errors(&glean, metric.meta(), ErrorType::InvalidOverflow)
    );
}

#[test]
fn labels_are_checked_against_static_list() {
    let (mut glean, _t) = new_glean(None);
    let labeled = LabeledCounter::new(
        LabeledMetricData::Common {
            cmd: CommonMetricData {
                name: "labeled_metric".into(),
                category: "telemetry".into(),
                send_in_pings: vec!["store1".into()],
                disabled: false,
                lifetime: Lifetime::Ping,
                ..Default::default()
            },
        },
        Some(vec!["label1".into(), "label2".into()]),
    );

    let metric = labeled.get("label1");
    metric.add_sync(&mut glean, 1);

    let metric = labeled.get("label2");
    metric.add_sync(&mut glean, 2);

    // All non-registed labels get mapped to the `other` label
    let metric = labeled.get("label3");
    metric.add_sync(&mut glean, 3);
    let metric = labeled.get("label4");
    metric.add_sync(&mut glean, 4);

    let snapshot = snapshot_of(&mut glean, "store1", true);

    assert_eq!(
        json(r#"{
            "labeled_counter": {
                "telemetry.labeled_metric": {
                    "label1": 1,
                    "label2": 2,
                    "__other__": 7
                }
            }
        }"#),
        snapshot
    );
}

#[test]
fn dynamic_labels_too_long() {
    let (mut glean, _t) = new_glean(None);
    let labeled = LabeledCounter::new(
        LabeledMetricData::Common {
            cmd: CommonMetricData {
                name: "labeled_metric".into(),
                category: "telemetry".into(),
                send_in_pings: vec!["store1".into()],
                disabled: false,
                lifetime: Lifetime::Ping,
                ..Default::default()
            },
        },
        None,
    );

    let metric = labeled.get(&"1".repeat(112));
    metric.add_sync(&mut glean, 1);

    let snapshot = snapshot_of(&mut glean, "store1", true);

    // A label that is too long counts as an overflow against the metric.
    assert_eq!(
        json(r#"{
            "labeled_counter": {
                "glean.error.invalid_overflow": { "telemetry.labeled_metric": 1 },
                "telemetry.labeled_metric": {
                    "__other__": 1
                }
            }
        }"#),
        snapshot
    );
}

#[test]
fn dynamic_labels_regex_allowed() {
    let (mut glean, _t) = new_glean(None);
    let labeled = LabeledCounter::new(
        LabeledMetricData::Common {
            cmd: CommonMetricData {
                name: "labeled_metric".into(),
                category: "telemetry".into(),
                send_in_pings: vec!["store1".into()],
                disabled: false,
                lifetime: Lifetime::Ping,
                ..Default::default()
            },
        },
        None,
    );

    let labels_validating = vec![
        "this.is.fine",
        "this_is_fine_too",
        "this.is_still_fine",
        "thisisfine",
        "_.is_fine",
        "this.is-fine",
        "this-is-fine",
        "non-ASCII\u{fffd}",
    ];

    for label in &labels_validating {
        labeled.get(label).add_sync(&mut glean, 1);
    }

    let snapshot = snapshot_of(&mut glean, "store1", true);

    assert_eq!(
        json("{
            \"labeled_counter\": {
                \"telemetry.labeled_metric\": {
                    \"this.is.fine\": 1,
                    \"this_is_fine_too\": 1,
                    \"this.is_still_fine\": 1,
                    \"thisisfine\": 1,
                    \"_.is_fine\": 1,
                    \"this.is-fine\": 1,
                    \"this-is-fine\": 1,
                    \"non-ASCII\u{fffd}\": 1
                }
            }
        }"),
        snapshot
    );
}

#[test]
fn seen_labels_get_reloaded_from_disk() {
    let (mut tempdir, _) = tempdir();

    let (mut glean, _dir) = new_glean(Some(tempdir));

    let labeled = LabeledCounter::new(
        LabeledMetricData::Common {
            cmd: CommonMetricData {
                name: "labeled_metric".into(),
                category: "telemetry".into(),
                send_in_pings: vec!["store1".into()],
                disabled: false,
                lifetime: Lifetime::Ping,
                ..Default::default()
            },
        },
        None,
    );

    // Store some data into labeled metrics
    {
        // Set the maximum number of labels
        for i in 1..=16 {
            let label = format!("label{i}");
            labeled.get(&label).add_sync(&mut glean, i);
        }

        let snapshot = snapshot_of(&mut glean, "store1", false);

        // Check that the data is there
        for i in 1..=16 {
            let label = format!("label{i}");
            assert_eq!(
                i,
                snapshot["labeled_counter"]["telemetry.labeled_metric"][&label]
            );
        }

        // What stays when the state is dropped is what is in storage.
        tempdir = glean.storage;
    }

    // Force a reload
    {
        let (mut glean, _t) = new_glean(Some(tempdir));

        // Try to store another label
        labeled.get("new_label").add_sync(&mut glean, 40);

        let snapshot = snapshot_of(&mut glean, "store1", false);

        // Check that the old data is still there
        for i in 1..=16 {
            let label = format!("label{i}");
            assert_eq!(
                i,
                snapshot["labeled_counter"]["telemetry.labeled_metric"][&label]
            );
        }

        // The new label lands in the __other__ bucket, due to too many labels
        assert_eq!(
            40,
            snapshot["labeled_counter"]["telemetry.labeled_metric"]["__other__"]
        );
    }
}

#[test]
fn caching_metrics_with_dynamic_labels() {
    let (mut glean, _t) = new_glean(None);
    let labeled = LabeledCounter::new(
        LabeledMetricData::Common {
            cmd: CommonMetricData {
                name: "cached_labels".into(),
                category: "telemetry".into(),
                send_in_pings: vec!["store1".into()],
                disabled: false,
                lifetime: Lifetime::Ping,
                ..Default::default()
            },
        },
        None,
    );

    // Create multiple metric instances and cache them for later use.
    let metrics = (1..=20)
        .map(|i| {
            let label = format!("label{i}");
            labeled.get(&label)
        })
        .collect::<Vec<_>>();

    // Only now use them.
    for metric in metrics {
        metric.add_sync(&mut glean, 1);
    }

    // The maximum number of labels we store is 16.
    // So we should have put 4 metrics in the __other__ bucket.
    let other = labeled.get("__other__");
    assert_eq!(Some(4), other.get_value(&glean, Some("store1")));
}

#[test]
fn caching_metrics_with_dynamic_labels_across_pings() {
    let (mut glean, _t) = new_glean(None);
    let labeled = LabeledCounter::new(
        LabeledMetricData::Common {
            cmd: CommonMetricData {
                name: "cached_labels2".into(),
                category: "telemetry".into(),
                send_in_pings: vec!["store1".into()],
                disabled: false,
                lifetime: Lifetime::Ping,
                ..Default::default()
            },
        },
        None,
    );

    // Create multiple metric instances and cache them for later use.
    let metrics = (1..=20)
        .map(|i| {
            let label = format!("label{i}");
            labeled.get(&label)
        })
        .collect::<Vec<_>>();

    // Only now use them.
    for metric in &metrics {
        metric.add_sync(&mut glean, 1);
    }

    // The maximum number of labels we store is 16.
    // So we should have put 4 metrics in the __other__ bucket.
    let other = labeled.get("__other__");
    assert_eq!(Some(4), other.get_value(&glean, Some("store1")));

    // Snapshot (so we can inspect the JSON)
    // and clear out storage (the same way submitting a ping would)
    let snapshot = snapshot_of(&mut glean, "store1", true);

    // We didn't send the 20th label
    assert_eq!(
        Value::Null,
        snapshot["labeled_counter"]["telemetry.cached_labels2"]["label20"]
    );

    // We now set the ones that ended up in `__other__` before.
    // Note: indexing is zero-based,
    // but we later check the names, so let's offset it by 1.
    metrics[16].add_sync(&mut glean, 17);
    metrics[17].add_sync(&mut glean, 18);
    metrics[18].add_sync(&mut glean, 19);
    metrics[19].add_sync(&mut glean, 20);

    // They stay in the `__other__` bucket: the registry was not reset.
    assert_eq!(Some(74), metrics[16].get_value(&glean, Some("store1")));
    assert_eq!(Some(74), metrics[17].get_value(&glean, Some("store1")));
    assert_eq!(Some(74), metrics[18].get_value(&glean, Some("store1")));
    assert_eq!(Some(74), metrics[19].get_value(&glean, Some("store1")));
    assert_eq!(Some(74), other.get_value(&glean, Some("store1")));

    let snapshot = snapshot_of(&mut glean, "store1", true);

    let cached_labels = &snapshot["labeled_counter"]["telemetry.cached_labels2"];
    assert_eq!(json(r#"{"__other__": 74}"#), *cached_labels);
    assert_eq!(Value::Null, cached_labels["label17"]);
    assert_eq!(Value::Null, cached_labels["label18"]);
    assert_eq!(Value::Null, cached_labels["label19"]);
    assert_eq!(Value::Null, cached_labels["label20"]);
    assert_eq!(Value::from(74), cached_labels["__other__"]);

    // A label that has a bucket keeps it.
    metrics[2].add_sync(&mut glean, 3);
    assert_eq!(Some(3), metrics[2].get_value(&glean, Some("store1")));
}

#[test]
fn the_registry_is_reset_with_the_store() {
    let (mut glean, _t) = new_glean(None);
    let labeled = LabeledCounter::new(
        LabeledMetricData::Common {
            cmd: CommonMetricData::new("telemetry", "reset", vec!["store1".into()], Lifetime::Ping),
        },
        None,
    );
    for i in 1..=17 {
        labeled.get(&format!("label{i}")).add_sync(&mut glean, 1);
    }
    assert_eq!(Some(1), labeled.get("__other__").get_value(&glean, None));
    assert_eq!(1, glean.label_registry.entries.len());
    assert_eq!(16, glean.label_registry.entries[0].labels.len());

    glean.set_upload_enabled(false);
    glean.set_upload_enabled(true);
    assert!(glean.label_registry.entries.is_empty());
    labeled.get("label17").add_sync(&mut glean, 4);
    assert_eq!(
        json(r#"{"labeled_counter": {"telemetry.reset": {"label17": 4}}}"#),
        snapshot_of(&mut glean, "store1", true)
    );
}

#[test]
fn metrics_of_one_name_with_other_stores_have_buckets_of_their_own() {
    let (mut glean, _t) = new_glean(None);
    new_test_ping(&mut glean, "store2");
    let first = LabeledCounter::new(
        LabeledMetricData::Common {
            cmd: CommonMetricData::new("telemetry", "m", vec!["store1".into()], Lifetime::Ping),
        },
        None,
    );
    let second = LabeledCounter::new(
        LabeledMetricData::Common {
            cmd: CommonMetricData::new("telemetry", "m", vec!["store2".into()], Lifetime::Ping),
        },
        None,
    );
    for i in 1..=16 {
        first.get(&format!("label{i}")).add_sync(&mut glean, 1);
    }
    second.get("late").add_sync(&mut glean, 2);
    first.get("late").add_sync(&mut glean, 3);
    // Asking again changes nothing.
    second.get("late").add_sync(&mut glean, 2);
    assert_eq!(Some(4), second.get("late").get_value(&glean, None));
    assert_eq!(Some(3), first.get("__other__").get_value(&glean, None));
    assert_eq!(None, second.get("__other__").get_value(&glean, None));
    assert_eq!(2, glean.label_registry.entries.len());
}

#[test]
fn a_count_of_errors_that_is_not_positive_is_an_error_itself() {
    let (mut glean, _t) = new_glean(None);
    let meta = CommonMetricData::new("telemetry", "m", vec!["store1".into()], Lifetime::Ping);
    record_error(&mut glean, &meta, ErrorType::InvalidLabel, 0);
    record_error(&mut glean, &meta, ErrorType::InvalidLabel, -2);
    record_error(&mut glean, &meta, ErrorType::InvalidOverflow, 3);
    assert_eq!(
        json(r#"{"labeled_counter": {
            "glean.error.invalid_value": {"glean.error.invalid_label": 2},
            "glean.error.invalid_overflow": {"telemetry.m": 3}
        }}"#),
        snapshot_of(&mut glean, "store1", false)
    );
    assert_eq!(
        Ok(3),
        test_get_num_recorded_errors(&glean, &meta, ErrorType::InvalidOverflow)
    );
    glean.set_upload_enabled(false);
    glean.set_upload_enabled(true);
    glean.set_upload_enabled(false);
    record_error(&mut glean, &meta, ErrorType::InvalidOverflow, 1);
    assert!(glean.storage.records.is_empty());
}

#[test]
fn overrun_the_label_count_with_a_single_label() {
    let (mut glean, _t) = new_glean(None);

    let pings = (0..16)
        .map(|i| new_test_ping(&mut glean, &format!("test-ping-{i}")))
        .collect::<Vec<_>>();

    let send_in_pings = pings
        .iter()
        .map(|p| p.name().to_string())
        .collect::<Vec<_>>();

    let labeled = LabeledCounter::new(
        LabeledMetricData::Common {
            cmd: CommonMetricData {
                name: "one_too_many_labels".into(),
                category: "telemetry".into(),
                send_in_pings,
                disabled: false,
                lifetime: Lifetime::Ping,
                ..Default::default()
            },
        },
        None,
    );

    let metric1 = labeled.get("label-1");
    metric1.add_sync(&mut glean, 1);
    assert_eq!(1, metric1.get_value(&glean, None).unwrap());

    let metric2 = labeled.get("label-2");
    metric2.add_sync(&mut glean, 23);

    assert_eq!(1, metric1.get_value(&glean, None).unwrap());
    assert_eq!(23, metric2.get_value(&glean, None).unwrap());

    let snapshot = snapshot_of(&mut glean, "test-ping-1", true);

    let cached_labels = &snapshot["labeled_counter"]["telemetry.one_too_many_labels"];
    assert_eq!(Value::from(1), cached_labels["label-1"]);
    assert_eq!(Value::from(23), cached_labels["label-2"]);
    assert_eq!(Value::Null, cached_labels["__other__"]);
}

#[test]
fn twenty_labels_fill_sixteen_buckets_and_the_overflow_bucket() {
    let (mut glean, _t) = new_glean(None);
    let labeled = LabeledCounter::new(
        LabeledMetricData::Common {
            cmd: CommonMetricData::new("telemetry", "many", vec!["store1".into()], Lifetime::Ping),
        },
        None,
    );
    let metrics = (1..=20)
        .map(|i| labeled.get(&format!("label{i}")))
        .collect::<Vec<_>>();
    for (i, metric) in metrics.iter().enumerate() {
        metric.add_sync(&mut glean, (i + 1) as i32);
    }
    let snapshot = snapshot_of(&mut glean, "store1", false);
    let buckets = snapshot["labeled_counter"]["telemetry.many"].as_object().unwrap();
    assert_eq!(17, buckets.len());
    for i in 1..=16 {
        assert_eq!(Value::from(i), buckets[&format!("label{i}")]);
    }
    assert_eq!(Value::from(17 + 18 + 19 + 20), buckets["__other__"]);
}

#[test]
fn a_label_with_a_character_outside_the_pattern_is_an_invalid_label() {
    let (mut glean, _t) = new_glean(None);
    let labeled = LabeledCounter::new(
        LabeledMetricData::Common {
            cmd: CommonMetricData::new("telemetry", "m", vec!["store1".into()], Lifetime::Ping),
        },
        None,
    );
    let metric = labeled.get("not fine");
    metric.add_sync(&mut glean, 5);
    assert_eq!(
        Ok(1),
        test_get_num_recorded_errors(&glean, labeled.get("x").meta(), ErrorType::InvalidLabel)
    );
    assert_eq!(
        json(r#"{
            "labeled_counter": {
                "glean.error.invalid_label": { "telemetry.m": 1 },
                "telemetry.m": { "__other__": 5 }
            }
        }"#),
        snapshot_of(&mut glean, "store1", true)
    );
}

#[test]
fn label_checks_at_the_length_limit() {
    assert_eq!(None, check_label(&"a".repeat(MAX_LABEL_LENGTH)));
    assert_eq!(
        Some(ErrorType::InvalidOverflow),
        check_label(&"a".repeat(MAX_LABEL_LENGTH + 1))
    );
    assert_eq!(Some(ErrorType::InvalidLabel), check_label("a/b"));
    assert_eq!(None, check_label(""));
    assert_eq!(
        Some(ErrorType::InvalidOverflow),
        check_label(&" ".repeat(MAX_LABEL_LENGTH + 1))
    );
}

#[test]
fn static_labels_outside_the_list_become_the_other_label() {
    let labels = vec!["label1".to_string(), "label2".to_string()];
    assert_eq!("label1", static_label(&labels, "label1"));
    assert_eq!("label2", static_label(&labels, "label2"));
    assert_eq!("__other__", static_label(&labels, "label3"));
    assert_eq!("__other__", static_label(&labels, ""));
}

#[test]
fn labels_stay_in_the_overflow_bucket_while_their_metric_outlives_the_read() {
    let (mut glean, _t) = new_glean(None);
    let labeled = LabeledCounter::new(
        LabeledMetricData::Common {
            cmd: CommonMetricData::new("telemetry", "kept", vec!["store1".into()], Lifetime::User),
        },
        None,
    );
    for i in 1..=18 {
        labeled.get(&format!("label{i}")).add_sync(&mut glean, 1);
    }
    let _ = snapshot_of(&mut glean, "store1", true);
    labeled.get("label17").add_sync(&mut glean, 5);
    labeled.get("label3").add_sync(&mut glean, 5);
    let snapshot = snapshot_of(&mut glean, "store1", true);
    let buckets = &snapshot["labeled_counter"]["telemetry.kept"];
    assert_eq!(Value::Null, buckets["label17"]);
    assert_eq!(Value::from(7), buckets["__other__"]);
    assert_eq!(Value::from(6), buckets["label3"]);
}

#[test]
fn nothing_is_recorded_while_upload_is_disabled() {
    let (mut glean, _t) = new_glean(None);
    glean.set_upload_enabled(false);
    let labeled = LabeledCounter::new(
        LabeledMetricData::Common {
            cmd: CommonMetricData::new("telemetry", "m", vec!["store1".into()], Lifetime::Ping),
        },
        None,
    );
    labeled.get("a").add_sync(&mut glean, 1);
    assert!(StorageManager
        .snapshot_as_json(&mut glean.storage, "store1", true)
        .is_none());
}

#[test]
fn a_counter_rejects_amounts_that_are_not_positive_and_stops_at_the_maximum() {
    let (mut glean, _t) = new_glean(None);
    let labeled = LabeledCounter::new(
        LabeledMetricData::Common {
            cmd: CommonMetricData::new("telemetry", "m", vec!["store1".into()], Lifetime::Ping),
        },
        None,
    );
    let metric = labeled.get("a");
    metric.add_sync(&mut glean, 0);
    metric.add_sync(&mut glean, -3);
    assert_eq!(None, metric.get_value(&glean, None));
    assert_eq!(
        Ok(2),
        test_get_num_recorded_errors(&glean, metric.meta(), ErrorType::InvalidValue)
    );
    assert_eq!(
        Err("No error recorded for telemetry.m in 'metrics' store".to_string()),
        test_get_num_recorded_errors(&glean, metric.meta(), ErrorType::InvalidLabel)
    );
    metric.add_sync(&mut glean, i32::MAX);
    metric.add_sync(&mut glean, 7);
    assert_eq!(Some(i32::MAX), metric.get_value(&glean, None));
}
