//! Tests for `parse_capture_notification`, the frame filter feeding the picture viewer's display queue.

use et_services::pic_viewer::parse_capture_notification;
use et_services::wire::JsonValue;

/// The library's JSON model of a parsed document.
fn model(value: &serde_json::Value) -> JsonValue {
    match value {
        serde_json::Value::Null => JsonValue::Null,
        serde_json::Value::Bool(b) => JsonValue::Bool(*b),
        serde_json::Value::Number(n) => JsonValue::Number(n.as_i64()),
        serde_json::Value::String(s) => JsonValue::String(s.clone()),
        serde_json::Value::Array(items) => JsonValue::Array(items.iter().map(model).collect()),
        serde_json::Value::Object(members) => {
            JsonValue::Object(members.iter().map(|(k, v)| (k.clone(), model(v))).collect())
        }
    }
}

fn parse(frame: &str) -> Option<et_services::pic_viewer::CaptureNotification> {
    let value: serde_json::Value = serde_json::from_str(frame).ok()?;
    parse_capture_notification(&model(&value))
}

const LIVE_BROADCAST_FRAME: &str = r#"{"type":"et-agent-message",
"message_id":"019f8c4a-2603-76e1-a8f3-3bd662e809e7",
"from_agent_id":"019f8c4a-25f5-7162-a35a-db901665cefb",
"scope":"broadcast",
"server_received_at":"2026-07-23T00:04:57.475093+00:00",
"message":{"agent_id":"019f8c4a-25f5-7162-a35a-db901665cefb",
"filename":"pyeye1-eye-capture-demo.png",
"kind":"pyeye1_capture_stored",
"url":"/storage/019f8c4a-25f5-7162-a35a-db901665cefb/pyeye1-eye-capture-demo.png"}}"#;

fn object(members: Vec<(&str, serde_json::Value)>) -> serde_json::Value {
    let mut map = serde_json::Map::new();
    for (k, v) in members {
        let _previous = map.insert(k.to_string(), v);
    }
    serde_json::Value::Object(map)
}

fn text(s: &str) -> serde_json::Value {
    serde_json::Value::String(s.to_string())
}

fn envelope(payload: &serde_json::Value) -> String {
    object(vec![
        ("type", text("et-agent-message")),
        ("message_id", text("test-message-id")),
        ("from_agent_id", text("agent-sender")),
        ("scope", text("broadcast")),
        ("server_received_at", text("2026-07-23T00:00:00+00:00")),
        ("message", payload.clone()),
    ])
    .to_string()
}

fn valid_payload() -> serde_json::Value {
    object(vec![
        ("kind", text("pyeye1_capture_stored")),
        ("agent_id", text("agent-sender")),
        ("filename", text("capture.png")),
        ("url", text("/storage/agent-sender/capture.png")),
    ])
}

#[test]
fn decodes_the_live_broadcast_envelope() {
    let notification = parse(LIVE_BROADCAST_FRAME).unwrap();
    assert_eq!(notification.from_agent_id, "019f8c4a-25f5-7162-a35a-db901665cefb");
    assert_eq!(notification.filename, "pyeye1-eye-capture-demo.png");
    assert_eq!(notification.url, "/storage/019f8c4a-25f5-7162-a35a-db901665cefb/pyeye1-eye-capture-demo.png");
}

#[test]
fn decodes_a_direct_scope_announcement_too() {
    let frame = envelope(&valid_payload()).replace(r#""scope":"broadcast""#, r#""scope":"direct""#);
    let notification = parse(&frame).unwrap();
    assert_eq!(notification.url, "/storage/agent-sender/capture.png");
}

#[test]
fn ignores_non_agent_message_traffic() {
    let other_frames = [
        r#"{"type":"et-connect-ack","agent_id":"agent-1","status":"assigned"}"#,
        r#"{"type":"et-response","message":"Alive message received"}"#,
        r#"{"type":"et-message-status","message_id":"m-1","status":"broadcast","detail":"sent"}"#,
        "not json at all",
        "",
        "42",
    ];
    for frame in other_frames {
        assert!(parse(frame).is_none(), "frame should be ignored: {frame}");
    }
}

#[test]
fn ignores_other_broadcast_kinds() {
    let mut wrong_kind = valid_payload();
    wrong_kind["kind"] = text("some_other_module_event");
    assert!(parse(&envelope(&wrong_kind)).is_none());

    let mut no_kind = valid_payload();
    let _removed = no_kind.as_object_mut().unwrap().remove("kind");
    assert!(parse(&envelope(&no_kind)).is_none());
}

#[test]
fn rejects_missing_or_non_string_urls() {
    let mut no_url = valid_payload();
    let _removed = no_url.as_object_mut().unwrap().remove("url");
    assert!(parse(&envelope(&no_url)).is_none());

    let mut numeric_url = valid_payload();
    numeric_url["url"] = serde_json::Value::from(42_i32);
    assert!(parse(&envelope(&numeric_url)).is_none());
}

#[test]
fn rejects_urls_outside_same_origin_storage() {
    let hostile_urls = [
        "https://evil.example/steal.png",
        "http://evil.example/steal.png",
        "//evil.example/steal.png",
        "/other/path.png",
        "storage/relative.png",
        "javascript:alert(1)",
    ];
    for url in hostile_urls {
        let mut payload = valid_payload();
        payload["url"] = text(url);
        assert!(parse(&envelope(&payload)).is_none(), "url should be rejected: {url}");
    }
}

#[test]
fn missing_filename_defaults_to_empty() {
    let mut no_filename = valid_payload();
    let _removed = no_filename.as_object_mut().unwrap().remove("filename");
    let notification = parse(&envelope(&no_filename)).unwrap();
    assert_eq!(notification.filename, "");
}

#[test]
fn an_unknown_scope_is_not_an_agent_message() {
    let frame = envelope(&valid_payload()).replace(r#""scope":"broadcast""#, r#""scope":"sideways""#);
    assert!(parse(&frame).is_none());
}
