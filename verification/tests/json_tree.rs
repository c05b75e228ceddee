use glean_core::json::Json;

fn sample() -> Json {
    let mut o = Json::object();
    o.insert("b".to_string(), Json::from_i64(2));
    o.insert("a".to_string(), Json::from_str("x"));
    o.insert("b".to_string(), Json::from_i64(3));
    o
}

#[test]
fn object_entries_are_written_in_key_order() {
    let o = sample();
    assert_eq!(o.to_text(), "{\"a\":\"x\",\"b\":3}");
    assert_eq!(o.len(), 2);
    assert_eq!("a", o.key_at(0));
    assert_eq!("b", o.key_at(1));
    assert_eq!(Some(3), o.value_at(1).as_i64());
}

#[test]
fn every_kind_of_value_is_written_as_json_text() {
    assert_eq!("null", Json::null().to_text());
    assert_eq!("true", Json::from_bool(true).to_text());
    assert_eq!("-9223372036854775808", Json::from_i64(i64::MIN).to_text());
    assert_eq!("\"a\\\"b\\n\"", Json::from_string("a\"b\n".to_string()).to_text());
    assert_eq!("{}", Json::object().to_text());
    assert_eq!("[]", Json::from_vec(vec![]).to_text());
    assert_eq!(
        "[1,[\"s\"],{\"k\":null}]",
        Json::from_vec(vec![
            Json::from_i64(1),
            Json::from_strings(&vec!["s".to_string()]),
            {
                let mut o = Json::object();
                o.insert("k".to_string(), Json::null());
                o
            }
        ])
        .to_text()
    );
}

#[test]
fn values_are_read_by_their_kind() {
    let o = sample();
    assert!(o.is_object());
    assert!(!o.is_null());
    assert!(Json::null().is_null());
    assert_eq!(Some("x"), o.get("a").unwrap().as_str());
    assert_eq!(None, o.get("a").unwrap().as_i64());
    assert_eq!(Some(3), o.get("b").unwrap().as_i64());
    assert!(o.get("c").is_none());
    assert!(o.contains_key("a"));
    assert!(!o.contains_key("A"));
    assert!(Json::from_i64(1).get("a").is_none());
    assert_eq!(0, Json::from_i64(1).len());
    assert_eq!(Some(false), Json::from_bool(false).as_bool());
    assert_eq!(None, Json::null().as_bool());
    let list = Json::from_vec(vec![Json::from_i64(7)]);
    assert_eq!(1, list.as_array().unwrap().len());
    assert_eq!(Some(7), list.as_array().unwrap()[0].as_i64());
    assert!(o.as_array().is_none());
}

#[test]
fn entries_are_removed_and_taken_out() {
    let mut o = sample();
    assert_eq!(Some(3), o.remove("b").unwrap().as_i64());
    assert!(o.remove("b").is_none());
    assert_eq!("{\"a\":\"x\"}", o.to_text());
    let mut not_an_object = Json::from_i64(1);
    assert!(not_an_object.remove("a").is_none());
    assert_eq!("1", not_an_object.to_text());

    let mut inner = Json::object();
    inner.insert("k".to_string(), Json::from_bool(true));
    o.insert("o".to_string(), inner);
    assert_eq!("{\"k\":true}", o.take_object("o").to_text());
    assert_eq!("{}", o.take_object("o").to_text());
    assert_eq!("{}", o.take_object("a").to_text());
    assert_eq!("{}", o.to_text());
}

#[test]
fn a_copy_holds_the_same_value() {
    let mut o = sample();
    o.insert("list".to_string(), Json::from_vec(vec![sample(), Json::null()]));
    let copy = o.duplicate();
    o.insert("later".to_string(), Json::from_i64(1));
    assert_eq!(
        "{\"a\":\"x\",\"b\":3,\"list\":[{\"a\":\"x\",\"b\":3},null]}",
        copy.to_text()
    );
}

#[test]
fn merge_descends_into_objects_and_overwrites_other_values() {
    let mut a = Json::object();
    let mut inner_a = Json::object();
    inner_a.insert("x".to_string(), Json::from_i64(1));
    inner_a.insert("y".to_string(), Json::from_i64(2));
    a.insert("o".to_string(), inner_a);
    a.insert("s".to_string(), Json::from_str("old"));

    let mut b = Json::object();
    let mut inner_b = Json::object();
    inner_b.insert("y".to_string(), Json::from_i64(20));
    inner_b.insert("z".to_string(), Json::from_i64(30));
    b.insert("o".to_string(), inner_b);
    b.insert("s".to_string(), Json::from_bool(true));
    b.insert("n".to_string(), Json::null());

    a.merge(&b);
    assert_eq!(
        a.to_text(),
        "{\"n\":null,\"o\":{\"x\":1,\"y\":20,\"z\":30},\"s\":true}"
    );

    // An object merged into a value that is none takes its place, and so
    // does any other value merged into an object.
    let mut plain = Json::from_i64(1);
    plain.merge(&b);
    assert_eq!(b.to_text(), plain.to_text());
    a.merge(&Json::from_i64(5));
    assert_eq!("5", a.to_text());

    // A new key whose value is an object is merged into null.
    let mut empty = Json::object();
    empty.merge(&b);
    assert_eq!(b.to_text(), empty.to_text());
}
