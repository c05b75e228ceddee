use glean_core::glean::{Glean, PingType};
use glean_core::json::Json;
use glean_core::metrics::{CommonMetricData, CounterMetric, StringMetric};
use glean_core::pending::{frame_record, parse_record, take_line};
use glean_core::ping::{
    add_capabilities, client_info_from, redact_experimentation_id, regroup, PingMaker, GLEAN_VERSION,
};
use glean_core::storage::{Lifetime, Metric};
use glean_core::time::{get_iso_time_string, Datetime, TimeUnit};
use glean_core::upload::process_metadata;
use serde_json::Value;

fn at(hour: u8, minute: u8) -> Datetime {
    Datetime {
        year: 2024,
        month: 3,
        day: 9,
        hour,
        minute,
        second: 2,
        nanosecond: 40_999_999,
        offset_seconds: -5 * 3600 - 30 * 60,
    }
}

fn new_glean(_dir: Option<()>) -> (Glean, ()) {
    let mut glean = Glean::new(at(7, 5));
    glean.register_ping_type(PingType::new("store1", true, false, true, true, true, vec![], vec![]));
    (glean, ())
}

fn ping(name: &str, send_if_empty: bool, include_info_sections: bool) -> PingType {
    PingType::new(
        name,
        true,
        send_if_empty,
        false,
        include_info_sections,
        true,
        vec![],
        vec![],
    )
}

fn counter(category: &str, name: &str, store: &str) -> CounterMetric {
    CounterMetric::new(CommonMetricData::new(
        category,
        name,
        vec![store.to_string()],
        Lifetime::Ping,
    ))
}

fn json(text: &str) -> Value {
    serde_json::from_str(text).unwrap()
}

fn value(j: &Json) -> Value {
    json(&j.to_text())
}

#[test]
fn sequence_numbers_should_be_reset_when_toggling_uploading() {
    let (mut glean, _t) = new_glean(None);
    let ping_maker = PingMaker::new();

    assert_eq!(0, ping_maker.get_ping_seq(&mut glean, "store1"));
    assert_eq!(1, ping_maker.get_ping_seq(&mut glean, "store1"));

    glean.set_upload_enabled(false);
    assert_eq!(0, ping_maker.get_ping_seq(&mut glean, "store1"));
    assert_eq!(0, ping_maker.get_ping_seq(&mut glean, "store1"));

    glean.set_upload_enabled(true);
    assert_eq!(0, ping_maker.get_ping_seq(&mut glean, "store1"));
    assert_eq!(1, ping_maker.get_ping_seq(&mut glean, "store1"));
}

#[test]
fn sequence_numbers_are_kept_per_store_and_only_for_known_pings() {
    let (mut glean, _t) = new_glean(None);
    glean.register_ping_type(ping("store2", false, true));
    let ping_maker = PingMaker::default();
    assert_eq!(0, ping_maker.get_ping_seq(&mut glean, "store1"));
    assert_eq!(0, ping_maker.get_ping_seq(&mut glean, "store2"));
    assert_eq!(1, ping_maker.get_ping_seq(&mut glean, "store1"));
    assert_eq!(2, ping_maker.get_ping_seq(&mut glean, "store1"));
    assert_eq!(1, ping_maker.get_ping_seq(&mut glean, "store2"));
    // A ping that was never registered counts as disabled.
    assert_eq!(0, ping_maker.get_ping_seq(&mut glean, "unknown"));
    assert_eq!(0, ping_maker.get_ping_seq(&mut glean, "unknown"));
    assert_eq!(
        Some(3),
        match glean
            .storage
            .get(Lifetime::User, "glean_internal_info", "store1#sequence")
        {
            Some(Metric::Counter(n)) => Some(n),
            _ => None,
        }
    );
}

#[test]
fn the_window_of_a_ping_starts_where_the_last_one_ended() {
    let (mut glean, _t) = new_glean(None);
    let ping_maker = PingMaker::new();
    let first = ping_maker.get_start_end_times(&mut glean, "store1", TimeUnit::Minute, at(8, 0));
    assert_eq!(
        (
            "2024-03-09T07:05-05:30".to_string(),
            "2024-03-09T08:00-05:30".to_string()
        ),
        first
    );
    let second =
        ping_maker.get_start_end_times(&mut glean, "store1", TimeUnit::Millisecond, at(9, 59));
    assert_eq!(
        (
            "2024-03-09T08:00:02.040-05:30".to_string(),
            "2024-03-09T09:59:02.040-05:30".to_string()
        ),
        second
    );
}

#[test]
fn the_window_start_is_written_also_while_upload_is_disabled() {
    let (mut glean, _t) = new_glean(None);
    glean.set_upload_enabled(false);
    let ping_maker = PingMaker::new();
    let first = ping_maker.get_start_end_times(&mut glean, "store1", TimeUnit::Minute, at(8, 0));
    assert_eq!("2024-03-09T07:05-05:30", first.0);
    assert!(matches!(
        glean
            .storage
            .get(Lifetime::User, "glean_internal_info", "store1#start"),
        Some(Metric::Datetime(t, TimeUnit::Minute)) if t == at(8, 0)
    ));
    let second = ping_maker.get_start_end_times(&mut glean, "store1", TimeUnit::Minute, at(9, 0));
    assert_eq!(
        (
            "2024-03-09T08:00-05:30".to_string(),
            "2024-03-09T09:00-05:30".to_string()
        ),
        second
    );
    // Another store and the sequence counter are not touched.
    assert!(glean
        .storage
        .get(Lifetime::User, "glean_internal_info", "store2#start")
        .is_none());
    assert!(glean
        .storage
        .get(Lifetime::User, "glean_internal_info", "store1#sequence")
        .is_none());
}

#[test]
fn write_timings_are_taken_once() {
    let (mut glean, _t) = new_glean(None);
    assert!(glean.take_write_timings().is_empty());
    glean.record_write_timing(5);
    glean.record_write_timing(3);
    assert_eq!(vec![5, 3], glean.take_write_timings());
    assert!(glean.take_write_timings().is_empty());
    glean.record_write_timing(9);
    assert_eq!(vec![9], glean.take_write_timings());
}

#[test]
fn times_are_written_in_iso_form() {
    let t = Datetime {
        year: 987,
        month: 12,
        day: 1,
        hour: 0,
        minute: 9,
        second: 59,
        nanosecond: 7_000_000,
        offset_seconds: 3600 + 15 * 60 + 59,
    };
    assert!(t.is_valid());
    assert_eq!("0987-12-01T00:09+01:15", get_iso_time_string(t, TimeUnit::Minute));
    assert_eq!(
        "0987-12-01T00:09:59.007+01:15",
        get_iso_time_string(t, TimeUnit::Millisecond)
    );
    assert!(!Datetime { month: 13, ..t }.is_valid());
}

#[test]
fn headers_come_from_the_debug_settings() {
    let (mut glean, _t) = new_glean(None);
    let ping_maker = PingMaker::new();
    assert!(ping_maker.get_headers(&glean).is_empty());
    glean.set_source_tags(vec!["a".to_string(), "b".to_string(), "c".to_string()]);
    assert_eq!(
        vec![("X-Source-Tags".to_string(), "a,b,c".to_string())],
        ping_maker.get_headers(&glean)
    );
    glean.set_debug_view_tag("tag");
    assert_eq!(
        vec![
            ("X-Debug-ID".to_string(), "tag".to_string()),
            ("X-Source-Tags".to_string(), "a,b,c".to_string())
        ],
        ping_maker.get_headers(&glean)
    );
}

#[test]
fn ping_info_holds_sequence_window_reason_and_experiments() {
    let (mut glean, _t) = new_glean(None);
    let ping_maker = PingMaker::new();
    let info = ping_maker.get_ping_info(&mut glean, "store1", None, TimeUnit::Minute, at(8, 0));
    assert_eq!(
        json(r#"{"seq": 0, "start_time": "2024-03-09T07:05-05:30", "end_time": "2024-03-09T08:00-05:30"}"#),
        value(&info)
    );
    let mut experiments = Json::object();
    let mut branch = Json::object();
    branch.insert("branch".to_string(), Json::from_str("b"));
    experiments.insert("exp".to_string(), branch);
    glean.set_experiments(experiments);
    let info = ping_maker.get_ping_info(
        &mut glean,
        "store1",
        Some("startup"),
        TimeUnit::Minute,
        at(8, 30),
    );
    assert_eq!(
        json(r#"{"seq": 1, "start_time": "2024-03-09T08:00-05:30", "end_time": "2024-03-09T08:30-05:30",
                 "reason": "startup", "experiments": {"exp": {"branch": "b"}}}"#),
        value(&info)
    );
}

#[test]
fn client_info_flattens_the_store_and_regroups_two_categories() {
    let (mut glean, _t) = new_glean(None);
    let store = "glean_client_info";
    let set = |glean: &mut Glean, name: &str, text: &str| {
        StringMetric::new(CommonMetricData::new(
            "",
            name,
            vec![store.to_string()],
            Lifetime::Application,
        ))
        .set_sync(glean, text)
    };
    set(&mut glean, "client_id", "c0ffee");
    set(&mut glean, "os", "linux");
    set(&mut glean, "attribution.source", "s");
    set(&mut glean, "attribution.campaign.x", "c");
    set(&mut glean, "distribution.name", "d");
    set(&mut glean, "attribution", "plain");
    counter("", "runs", store).add_sync(&mut glean, 3);

    let ping_maker = PingMaker::new();
    let with_id = ping_maker.get_client_info(&mut glean, true);
    assert_eq!(
        json(&format!(
            r#"{{"telemetry_sdk_build": "{GLEAN_VERSION}", "client_id": "c0ffee", "os": "linux", "runs": 3,
                 "attribution": {{"source": "s", "campaign": "c"}},
                 "distribution": {{"name": "d"}}}}"#
        )),
        value(&with_id)
    );
    // The counter was of ping lifetime and went with the read.
    let without_id = ping_maker.get_client_info(&mut glean, false);
    assert_eq!(
        json(&format!(
            r#"{{"telemetry_sdk_build": "{GLEAN_VERSION}", "os": "linux",
                 "attribution": {{"source": "s", "campaign": "c"}},
                 "distribution": {{"name": "d"}}}}"#
        )),
        value(&without_id)
    );
}

#[test]
fn client_info_of_an_empty_store_holds_the_version_alone() {
    let (mut glean, _t) = new_glean(None);
    let info = PingMaker::new().get_client_info(&mut glean, false);
    assert_eq!(
        json(&format!(r#"{{"telemetry_sdk_build": "{GLEAN_VERSION}"}}"#)),
        value(&info)
    );
}

#[test]
fn collect_gives_a_ping_with_info_sections_and_then_none_for_the_cleared_store() {
    let (mut glean, _t) = new_glean(None);
    counter("telemetry", "x", "store1").add_sync(&mut glean, 1);
    let ping_maker = PingMaker::new();
    let ping_type = ping("store1", false, true);

    let collected = ping_maker
        .collect(&mut glean, &ping_type, None, "doc-1", "/submit/app/store1/1/doc-1", None, at(8, 0))
        .unwrap();
    assert_eq!("store1", collected.name);
    assert_eq!("doc-1", collected.doc_id);
    assert_eq!("/submit/app/store1/1/doc-1", collected.url_path);
    assert!(collected.includes_info_sections);
    assert!(collected.headers.is_empty());
    let content = value(&collected.content);
    assert_eq!(Value::from(1), content["metrics"]["counter"]["telemetry.x"]);
    assert_eq!(Value::from(0), content["ping_info"]["seq"]);
    assert_eq!(
        Value::from("2024-03-09T07:05-05:30"),
        content["ping_info"]["start_time"]
    );
    assert_eq!(
        Value::from("2024-03-09T08:00-05:30"),
        content["ping_info"]["end_time"]
    );
    assert_eq!(
        Value::from(GLEAN_VERSION),
        content["client_info"]["telemetry_sdk_build"]
    );
    assert_eq!(Value::Null, content["events"]);

    assert!(ping_maker
        .collect(&mut glean, &ping_type, None, "doc-2", "/submit/app/store1/1/doc-2", None, at(9, 0))
        .is_none());
    // The ping that was not sent took no sequence number.
    assert_eq!(1, ping_maker.get_ping_seq(&mut glean, "store1"));
}

#[test]
fn the_events_ping_is_never_sent_without_events() {
    let (mut glean, _t) = new_glean(None);
    glean.register_ping_type(ping("events", true, true));
    glean.register_ping_type(ping("other", true, false));
    let ping_maker = PingMaker::new();

    let events = ping("events", true, true);
    assert!(ping_maker
        .collect(&mut glean, &events, None, "d", "/p", None, at(8, 0))
        .is_none());
    counter("telemetry", "x", "events").add_sync(&mut glean, 1);
    assert!(ping_maker
        .collect(&mut glean, &events, None, "d", "/p", None, at(8, 0))
        .is_none());

    let mut event = Json::object();
    event.insert("name".to_string(), Json::from_str("click"));
    let sent = ping_maker
        .collect(
            &mut glean,
            &events,
            None,
            "d",
            "/p",
            Some(Json::from_vec(vec![event])),
            at(8, 0),
        )
        .unwrap();
    assert_eq!(
        json(r#"[{"name": "click"}]"#),
        value(&sent.content)["events"]
    );

    // Any other ping that is sent when empty is sent with an empty payload.
    let other = ping("other", true, false);
    let sent = ping_maker
        .collect(&mut glean, &other, None, "d", "/p", None, at(8, 0))
        .unwrap();
    assert_eq!(json("{}"), value(&sent.content));
    assert!(!sent.includes_info_sections);
}

#[test]
fn the_capabilities_of_the_uploader_go_into_the_metrics() {
    let (mut glean, _t) = new_glean(None);
    let ping_maker = PingMaker::new();
    let caps = vec!["ohttp".to_string(), "other".to_string()];
    let with_caps = |send_if_empty| {
        PingType::new("store1", true, send_if_empty, false, false, true, vec!["next".to_string()], caps.clone())
    };

    // No data and not sent when empty: the list is no reason to send.
    assert!(ping_maker
        .collect(&mut glean, &with_caps(false), None, "d", "/p", None, at(8, 0))
        .is_none());

    let described = with_caps(true);
    let sent = ping_maker
        .collect(&mut glean, &described, None, "d", "/p", None, at(8, 0))
        .unwrap();
    assert_eq!(
        json(r#"{"metrics": {"string_list": {"glean.ping.uploader_capabilities": ["ohttp", "other"]}}}"#),
        value(&sent.content)
    );
    assert_eq!(caps, sent.uploader_capabilities);
    assert_eq!(vec!["next".to_string()], sent.schedules_pings);

    counter("telemetry", "x", "store1").add_sync(&mut glean, 2);
    glean
        .storage
        .put(Lifetime::Ping, "store1", "telemetry.l", Metric::StringList(vec!["v".to_string()]));
    let described = with_caps(false);
    let sent = ping_maker
        .collect(&mut glean, &described, None, "d", "/p", None, at(8, 0))
        .unwrap();
    assert_eq!(
        json(r#"{"metrics": {"counter": {"telemetry.x": 2},
                 "string_list": {"telemetry.l": ["v"], "glean.ping.uploader_capabilities": ["ohttp", "other"]}}}"#),
        value(&sent.content)
    );
}

#[test]
fn the_experimentation_id_leaves_pings_that_may_not_hold_it() {
    let ping_maker = PingMaker::new();
    let id = |glean: &mut Glean| {
        glean.storage.put(
            Lifetime::Application,
            "store1",
            "glean.client.annotation.experimentation_id",
            Metric::String("exp-id".to_string()),
        )
    };
    let ping_with = |include_client_id, send_if_empty| {
        PingType::new("store1", include_client_id, send_if_empty, false, false, true, vec![], vec![])
    };

    // Alone in a ping that is not sent when empty: the ping is not sent.
    let (mut glean, _t) = new_glean(None);
    id(&mut glean);
    assert!(ping_maker
        .collect(&mut glean, &ping_with(true, false), None, "d", "/p", None, at(8, 0))
        .is_none());

    // With other data in such a ping it stays.
    counter("telemetry", "x", "store1").add_sync(&mut glean, 1);
    let described = ping_with(true, false);
    let sent = ping_maker
        .collect(&mut glean, &described, None, "d", "/p", None, at(8, 0))
        .unwrap();
    assert_eq!(
        json(r#"{"metrics": {"counter": {"telemetry.x": 1},
                 "string": {"glean.client.annotation.experimentation_id": "exp-id"}}}"#),
        value(&sent.content)
    );

    // A ping without the client id never holds it.
    counter("telemetry", "x", "store1").add_sync(&mut glean, 1);
    StringMetric::new(CommonMetricData::new(
        "telemetry",
        "s",
        vec!["store1".to_string()],
        Lifetime::Ping,
    ))
    .set_sync(&mut glean, "kept");
    let described = ping_with(false, true);
    let sent = ping_maker
        .collect(&mut glean, &described, None, "d", "/p", None, at(8, 0))
        .unwrap();
    assert_eq!(
        json(r#"{"metrics": {"counter": {"telemetry.x": 1}, "string": {"telemetry.s": "kept"}}}"#),
        value(&sent.content)
    );
    let described = ping_with(false, true);
    let sent = ping_maker
        .collect(&mut glean, &described, None, "d", "/p", None, at(8, 0))
        .unwrap();
    assert_eq!(json("{}"), value(&sent.content));

    // With the client id and sent when empty it stays.
    let described = ping_with(true, true);
    let sent = ping_maker
        .collect(&mut glean, &described, None, "d", "/p", None, at(8, 0))
        .unwrap();
    assert_eq!(
        json(r#"{"metrics": {"string": {"glean.client.annotation.experimentation_id": "exp-id"}}}"#),
        value(&sent.content)
    );
}

#[test]
fn a_stored_ping_is_read_back_as_it_was_written() {
    let (mut glean, _t) = new_glean(None);
    glean.set_debug_view_tag("view");
    counter("telemetry", "x", "store1").add_sync(&mut glean, 1);
    let ping_maker = PingMaker::new();
    let ping_type = PingType::new(
        "store1",
        true,
        false,
        false,
        false,
        true,
        vec![],
        vec!["ohttp".to_string()],
    );
    let collected = ping_maker
        .collect(&mut glean, &ping_type, None, "doc", "/submit/app/store1/1/doc", None, at(8, 0))
        .unwrap();
    let text = ping_maker.ping_record(&collected);
    assert_eq!(3, text.lines().count());
    assert_eq!(3, text.matches('\n').count());
    assert!(text.ends_with('\n'));

    let record = parse_record(&text).unwrap();
    assert_eq!("/submit/app/store1/1/doc", record.url_path);
    assert_eq!(value(&collected.content), json(&record.payload));
    assert_eq!(collected.content.to_text(), record.payload);
    assert_eq!(
        json(r#"{"body_has_info_sections": false, "ping_name": "store1",
                 "uploader_capabilities": ["ohttp"], "headers": {"X-Debug-ID": "view"}}"#),
        json(&record.metadata.clone().unwrap())
    );
    let metadata = process_metadata(&record.metadata.unwrap()).unwrap();
    assert_eq!(Some(false), metadata.body_has_info_sections);
    assert_eq!(Some("store1".to_string()), metadata.ping_name);
    assert_eq!(Some(vec!["ohttp".to_string()]), metadata.uploader_capabilities);
    assert_eq!(
        Some(vec![("X-Debug-ID".to_string(), "view".to_string())]),
        metadata.headers
    );
}

#[test]
fn records_are_framed_on_three_lines() {
    assert_eq!("/p\n{}\n{\"a\":1}\n", frame_record("/p", "{}", "{\"a\":1}"));
    let record = parse_record("/p\r\n{}\n").unwrap();
    assert_eq!("/p", record.url_path);
    assert_eq!("{}", record.payload);
    assert_eq!(None, record.metadata);
    let record = parse_record("/p\n{}\nmeta\r").unwrap();
    assert_eq!(Some("meta\r".to_string()), record.metadata);
    assert!(parse_record("").is_none());
    assert!(parse_record("/p").is_none());
    assert!(parse_record("/p\n").is_none());
    assert_eq!(None, take_line(""));
    assert_eq!(
        Some(("".to_string(), "x".to_string())),
        take_line("\nx")
    );
}

#[test]
fn metadata_is_read_leniently_in_what_it_does_not_know() {
    let read = process_metadata(r#"{"ping_name": "a", "extra": 1.5, "headers": null}"#).unwrap();
    assert_eq!(Some("a".to_string()), read.ping_name);
    assert_eq!(None, read.headers);
    assert_eq!(None, read.body_has_info_sections);
    assert_eq!(None, read.uploader_capabilities);
    assert!(process_metadata(r#"{"ping_name": 1}"#).is_none());
    assert!(process_metadata(r#"{"headers": {"a": 1}}"#).is_none());
    assert!(process_metadata(r#"{"uploader_capabilities": ["a", null]}"#).is_none());
    assert!(process_metadata(r#"{"body_has_info_sections": "yes"}"#).is_none());
    assert!(process_metadata(r#"["a"]"#).is_none());
    assert!(process_metadata("not json").is_none());
}

#[test]
fn clearing_removes_only_the_pings_of_the_given_names() {
    let ping_maker = PingMaker::new();
    let a_by_metadata = frame_record("/submit/app/ping-b/1/doc", "{}", r#"{"ping_name": "ping-a"}"#);
    let a_by_path = "/submit/app/ping-a/1/doc\n{}\n".to_string();
    let a_by_path_after_bad_metadata = frame_record("/submit/app/ping-a/1/doc", "{}", "{");
    let b_by_metadata = frame_record("/submit/app/ping-a/1/doc", "{}", r#"{"ping_name": "ping-b"}"#);
    let b_by_path = frame_record("/submit/app/ping-b/1/doc", "{}", r#"{"ping_name": null}"#);
    let short_path = "/submit/app\n{}\n".to_string();

    let names = ["ping-a"];
    assert!(ping_maker.is_pending_ping_of(&a_by_metadata, &names));
    assert!(ping_maker.is_pending_ping_of(&a_by_path, &names));
    // A file whose metadata cannot be read is left alone.
    assert!(!ping_maker.is_pending_ping_of(&a_by_path_after_bad_metadata, &names));
    assert!(!ping_maker.is_pending_ping_of(
        "/submit/app/ping-a/1/d4\n{}\n{not json",
        &names
    ));
    assert!(!ping_maker.is_pending_ping_of(
        &frame_record("/submit/app/ping-a/1/doc", "{}", r#"{"ping_name": 7}"#),
        &names
    ));
    assert!(!ping_maker.is_pending_ping_of(&b_by_metadata, &names));
    assert!(!ping_maker.is_pending_ping_of(&b_by_path, &names));
    assert!(!ping_maker.is_pending_ping_of(&short_path, &names));
    assert!(!ping_maker.is_pending_ping_of("", &names));
    assert!(!ping_maker.is_pending_ping_of("/submit/app/ping-a/1/doc", &names));
    assert!(!ping_maker.is_pending_ping_of(&a_by_path, &[]));
    assert!(ping_maker.is_pending_ping_of(&short_path, &[""]));
    assert!(ping_maker.is_pending_ping_of(&b_by_path, &["ping-a", "ping-b"]));

    assert_eq!(
        Some("ping-a".to_string()),
        ping_maker.pending_ping_name("/submit/app/ping-a/1/doc", None)
    );
    assert_eq!(Some("".to_string()), ping_maker.pending_ping_name("a/b/c", None));
    assert_eq!(
        Some("ping-a".to_string()),
        ping_maker.pending_ping_name("/submit/app/ping-a/1/doc", Some("{}"))
    );
    assert_eq!(
        Some("named".to_string()),
        ping_maker.pending_ping_name("/submit/app/ping-a/1/doc", Some(r#"{"ping_name": "named"}"#))
    );
    assert_eq!(
        None,
        ping_maker.pending_ping_name("/submit/app/ping-a/1/doc", Some("{not json"))
    );
}

#[test]
fn deletion_requests_have_a_directory_of_their_own() {
    let ping_maker = PingMaker::new();
    assert_eq!(
        "deletion_request_pings",
        ping_maker.pings_dir_name(Some("deletion-request"))
    );
    assert_eq!("pending_pings", ping_maker.pings_dir_name(Some("baseline")));
    assert_eq!("pending_pings", ping_maker.pings_dir_name(None));
}

#[test]
fn the_steps_of_payload_assembly_on_given_snapshots() {
    let parse = |text: &str| -> Json {
        // Builds the tree for a flat object of strings or of objects of strings.
        let parsed: Value = serde_json::from_str(text).unwrap();
        fn build(v: &Value) -> Json {
            match v {
                Value::Object(m) => {
                    let mut o = Json::object();
                    for (k, x) in m {
                        o.insert(k.clone(), build(x));
                    }
                    o
                }
                Value::String(s) => Json::from_str(s),
                Value::Number(n) => Json::from_i64(n.as_i64().unwrap()),
                _ => Json::null(),
            }
        }
        build(&parsed)
    };
    let caps = vec!["ohttp".to_string()];

    // Without capabilities the metrics stay as they are.
    assert!(add_capabilities(None, &vec![], true, true).is_none());
    // No metrics, not sent when empty, no events: the list starts nothing.
    assert!(add_capabilities(None, &caps, false, false).is_none());
    assert_eq!(
        json(r#"{"string_list": {"glean.ping.uploader_capabilities": ["ohttp"]}}"#),
        value(&add_capabilities(None, &caps, false, true).unwrap())
    );
    // Metrics that are no object stay as they are.
    assert_eq!(
        json("1"),
        value(&add_capabilities(Some(Json::from_i64(1)), &caps, true, true).unwrap())
    );

    let id = r#"{"string": {"glean.client.annotation.experimentation_id": "e"}}"#;
    assert!(redact_experimentation_id(Some(parse(id)), true, false, false).is_none());
    // Events keep the ping from being empty, so the identifier stays.
    assert_eq!(
        json(id),
        value(&redact_experimentation_id(Some(parse(id)), true, false, true).unwrap())
    );
    assert!(redact_experimentation_id(Some(parse(id)), false, true, true).is_none());
    assert!(redact_experimentation_id(None, false, false, false).is_none());
    assert_eq!(
        json(r#"{"counter": {"a": 1}}"#),
        value(
            &redact_experimentation_id(
                Some(parse(
                    r#"{"counter": {"a": 1}, "string": {"glean.client.annotation.experimentation_id": "e"}}"#
                )),
                false,
                true,
                false
            )
            .unwrap()
        )
    );

    // Of two fields with one name in a category the one with the later key wins.
    assert_eq!(
        json(r#"{"attribution": {"a": "second"}, "distribution": {"": "d"}, "attribution_x": "kept", "os": "l"}"#),
        value(&regroup(&parse(
            r#"{"attribution.a": "first", "attribution.a.b": "second", "distribution.": "d",
                "attribution_x": "kept", "os": "l"}"#
        )))
    );

    // The sections are merged in the order of their names: the later section wins.
    let snapshot = parse(r#"{"string": {"x": "s", "client_id": "id"}, "counter": {"x": 1}}"#);
    assert_eq!(
        json(&format!(r#"{{"telemetry_sdk_build": "{GLEAN_VERSION}", "x": "s"}}"#)),
        value(&client_info_from(Some(&snapshot), false))
    );
}
