use presence_hub::codec::{encode_event, parse_event};
use presence_hub::event::StatusEvent;

fn ev(user_id: &str, status: &str) -> StatusEvent {
    StatusEvent::new(user_id.to_string(), status.to_string()).expect("non-empty strings")
}

#[test]
fn encoding_is_the_expected_json_text() {
    let enc = encode_event(&ev("alice", "connected"));
    assert_eq!(enc, "{\"user_id\":\"alice\",\"status\":\"connected\"}");
}

#[test]
fn round_trip_plain_strings() {
    let e = ev("alice", "away");
    let back = parse_event(&encode_event(&e)).expect("own encoding parses");
    assert_eq!(back.user_id(), "alice");
    assert_eq!(back.status(), "away");
}

#[test]
fn round_trip_quotes_and_backslashes() {
    let e = ev("a\"b\\c", "x\\\"y");
    let enc = encode_event(&e);
    let back = parse_event(&enc).expect("own encoding parses");
    assert_eq!(back.user_id(), "a\"b\\c");
    assert_eq!(back.status(), "x\\\"y");
}

#[test]
fn round_trip_control_characters() {
    let e = ev("a\nb\tc", "x\u{1}y\u{1f}z");
    let enc = encode_event(&e);
    assert!(enc.contains("\\u000a"));
    assert!(enc.contains("\\u0009"));
    let back = parse_event(&enc).expect("own encoding parses");
    assert_eq!(back.user_id(), "a\nb\tc");
    assert_eq!(back.status(), "x\u{1}y\u{1f}z");
}

#[test]
fn round_trip_non_ascii() {
    let e = ev("héloïse", "déconnecté");
    let back = parse_event(&encode_event(&e)).expect("own encoding parses");
    assert_eq!(back.user_id(), "héloïse");
    assert_eq!(back.status(), "déconnecté");
}

#[test]
fn serde_json_reads_the_encoding_back() {
    let enc = encode_event(&ev("a\"b\nc", "conn\\ected"));
    let v: serde_json::Value = serde_json::from_str(&enc).expect("valid JSON");
    assert_eq!(v["user_id"], "a\"b\nc");
    assert_eq!(v["status"], "conn\\ected");
}

#[test]
fn malformed_texts_are_refused() {
    assert!(parse_event("").is_none());
    assert!(parse_event("{}").is_none());
    assert!(parse_event("{\"user_id\":\"alice\"}").is_none());
    assert!(parse_event("{\"status\":\"x\",\"user_id\":\"alice\"}").is_none());
    assert!(parse_event("{\"user_id\":\"alice\",\"status\":\"x\"} ").is_none());
    assert!(parse_event("{\"user_id\":\"alice\",\"status\":\"x\"").is_none());
    assert!(parse_event("{\"user_id\":\"al\\qce\",\"status\":\"x\"}").is_none());
    assert!(parse_event("{\"user_id\":\"al\nce\",\"status\":\"x\"}").is_none());
}

#[test]
fn empty_fields_are_refused() {
    assert!(parse_event("{\"user_id\":\"\",\"status\":\"x\"}").is_none());
    assert!(parse_event("{\"user_id\":\"alice\",\"status\":\"\"}").is_none());
}
