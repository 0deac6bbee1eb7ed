use opp::status::{format_time, Status, END_OF_TIME, FIRST_INSTANT};

const SECOND: i128 = 1_000_000_000;

#[test]
fn stopped_status_is_exact_and_valid() {
    let json = Status::stopped().json().unwrap();
    assert_eq!(json, br#"{"schema_version":1,"running":false}"#);
    assert!(Status::valid_json(&json));
}

#[test]
fn invalid_status_json_is_rejected() {
    assert!(!Status::valid_json(b"not-json"));
    assert!(!Status::valid_json(b"[]"));
    assert!(!Status::valid_json(
        br#"{"schema_version":2,"running":false}"#
    ));
    assert!(!Status::valid_json(
        br#"{"schema_version":1,"running":"false"}"#
    ));
}

#[test]
fn running_status_is_exact() {
    let mut status = Status::running(
        Some(String::from("a\"b\\\u{1}ü")),
        String::from("/opt/op"),
    );
    status.started_at = format_time(1_783_886_400 * SECOND);
    let json = status.json().unwrap();
    assert_eq!(
        String::from_utf8(json.clone()).unwrap(),
        "{\"schema_version\":1,\"running\":true,\"authorization\":\"reauthorization_required\",\
         \"account_selector\":\"a\\\"b\\\\\\u0001ü\",\"op_path\":\"/opt/op\",\
         \"broker_version\":\"0.1.0\",\"started_at\":\"2026-07-12T20:00:00Z\"}"
    );
    assert!(Status::valid_json(&json));
}

#[test]
fn a_status_is_read_back_with_its_members_and_no_others() {
    let selector = "a\"b\\\u{1}\n\u{1f511}ü";
    let status = Status::running(Some(String::from(selector)), String::from("/opt/op"));
    let json = status.json().unwrap();
    let value: serde_json::Value = serde_json::from_slice(&json).unwrap();
    let members = value.as_object().unwrap();
    assert_eq!(members.len(), 6);
    assert_eq!(members["schema_version"].as_u64(), Some(1));
    assert_eq!(members["running"].as_bool(), Some(true));
    for (name, text) in [
        ("authorization", "reauthorization_required"),
        ("account_selector", selector),
        ("op_path", "/opt/op"),
        ("broker_version", "0.1.0"),
    ] {
        assert_eq!(members[name].as_str(), Some(text));
    }
}

#[test]
fn active_status_has_every_member() {
    let mut status = Status::running(None, String::from("/op"));
    status.authorization = Some("active");
    status.authorized_at = Some(String::from("a"));
    status.hard_expires_at = Some(String::from("b"));
    status.next_probe_at = Some(String::from("c"));
    let json = status.json().unwrap();
    assert_eq!(
        json,
        br#"{"schema_version":1,"running":true,"authorization":"active","op_path":"/op","broker_version":"0.1.0","authorized_at":"a","hard_expires_at":"b","next_probe_at":"c"}"#
    );
    assert!(Status::valid_json(&json));
}

#[test]
fn other_members_do_not_matter() {
    assert!(Status::valid_json(
        br#" {"x":[1,{"running":1}],"running":true,"y":null,"schema_version":1,"z":-1.5} "#
    ));
    assert!(!Status::valid_json(br#"{"running":true}"#));
    assert!(!Status::valid_json(br#"{"schema_version":1}"#));
    assert!(!Status::valid_json(
        br#"{"schema_version":1.0,"running":true}"#
    ));
    assert!(!Status::valid_json(
        br#"{"schema_version":"1","running":true}"#
    ));
    assert!(!Status::valid_json(
        br#"{"schema_version":1,"running":null}"#
    ));
    assert!(!Status::valid_json(
        br#"{"schema_version":1,"running":true} x"#
    ));
}

#[test]
fn the_last_of_equal_members_counts() {
    assert!(Status::valid_json(
        br#"{"schema_version":2,"schema_version":1,"running":true}"#
    ));
    assert!(!Status::valid_json(
        br#"{"schema_version":1,"schema_version":2,"running":true}"#
    ));
}

#[test]
fn times_are_written_in_utc() {
    assert_eq!(format_time(0).unwrap(), "1970-01-01T00:00:00Z");
    assert_eq!(
        format_time(1_783_886_460 * SECOND + 500_000_000).unwrap(),
        "2026-07-12T20:01:00.5Z"
    );
    assert_eq!(
        format_time(-1).unwrap(),
        "1969-12-31T23:59:59.999999999Z"
    );
    assert_eq!(format_time(FIRST_INSTANT).unwrap(), "0000-01-01T00:00:00Z");
    assert_eq!(
        format_time(END_OF_TIME - 1).unwrap(),
        "9999-12-31T23:59:59.999999999Z"
    );
    for nanos in [FIRST_INSTANT - 1, END_OF_TIME, i128::MIN, i128::MAX] {
        assert_eq!(format_time(nanos), None);
    }
}
