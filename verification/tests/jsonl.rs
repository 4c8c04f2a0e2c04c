use agent_salon::db::{MessageRow, Via};
use agent_salon::jsonl::{event_text, message_text, JsonlLogger};
use agent_salon::log::{now, stamp};
use agent_salon::time::Timestamp;
use serde_json::Value;

fn fields(pairs: &[(&str, Value)]) -> serde_json::Map<String, Value> {
    let mut o = serde_json::Map::new();
    for (k, v) in pairs {
        o.insert(k.to_string(), v.clone());
    }
    o
}

fn sample() -> MessageRow {
    MessageRow {
        id: 0x0190_0000_0000_7000_8000_0000_0000_0001,
        ts: Timestamp { secs: 1_767_225_600, nanos: 250_000_000 },
        via: Via::Notify,
        source: "ci".to_string(),
        target: None,
        content: "line one\nline \"two\"".to_string(),
        meta: Value::Object(fields(&[("kind", Value::from("info")), ("b", Value::from(2))])),
        delivered_to: vec!["a".to_string(), "b\\c".to_string()],
        delivery_errors: Vec::new(),
        sender_addr: Some("127.0.0.1:5".to_string()),
        sender_session_id: None,
    }
}

#[test]
fn no_op_when_env_unset() {
    let logger = JsonlLogger::from_env(None);
    assert!(!logger.enabled());
    let line = logger.event("session_connected", &fields(&[("label", Value::from("miu"))]));
    assert_eq!(line, None);
    assert_eq!(logger.message(&sample()), None);
}

#[test]
fn writes_event_lines() {
    let logger = JsonlLogger::from_env(Some("test.jsonl".to_string()));
    assert!(logger.enabled());
    let written = [
        logger.event(
            "session_connected",
            &fields(&[
                ("label", Value::from("miu")),
                ("active", Value::from(7)),
                ("evicted", Value::from(0)),
            ]),
        ),
        logger.event(
            "delivery_skipped",
            &fields(&[
                ("target", Value::from("claudep")),
                ("reason", Value::from("liveness_timeout")),
            ]),
        ),
    ];
    let lines: Vec<Value> =
        written.iter().flatten().map(|l| serde_json::from_str(l).unwrap()).collect();
    assert_eq!(lines.len(), 2);
    assert_eq!(lines[0]["kind"], "event");
    assert_eq!(lines[0]["event"], "session_connected");
    assert_eq!(lines[0]["label"], "miu");
    assert_eq!(lines[0]["active"], 7);
    assert_eq!(lines[1]["event"], "delivery_skipped");
    assert_eq!(lines[1]["reason"], "liveness_timeout");
    let ts = lines[0]["ts"].as_str().unwrap();
    chrono::DateTime::parse_from_rfc3339(ts).unwrap();
}

#[test]
fn event_line_is_exact() {
    let ts = Timestamp { secs: 1_767_225_600, nanos: 5_000_000 };
    assert_eq!(
        event_text(ts, "x", &fields(&[("b", Value::from(1)), ("a", Value::from("q\""))])),
        "{\"ts\":\"2026-01-01T00:00:00.005Z\",\"kind\":\"event\",\"event\":\"x\",\"a\":\"q\\\"\",\"b\":1}"
    );
    assert_eq!(
        event_text(ts, "x", &serde_json::Map::new()),
        "{\"ts\":\"2026-01-01T00:00:00.005Z\",\"kind\":\"event\",\"event\":\"x\"}"
    );
}

#[test]
fn message_line_is_exact() {
    let line = message_text(&sample());
    assert_eq!(
        line,
        "{\"kind\":\"message\",\"id\":\"01900000-0000-7000-8000-000000000001\",\
         \"ts\":\"2026-01-01T00:00:00.250Z\",\"via\":\"notify\",\"source\":\"ci\",\"target\":null,\
         \"content\":\"line one\\nline \\\"two\\\"\",\"meta\":{\"b\":2,\"kind\":\"info\"},\
         \"delivered_to\":[\"a\",\"b\\\\c\"],\"delivery_errors\":[],\
         \"sender_addr\":\"127.0.0.1:5\",\"sender_session_id\":null}"
    );
    assert_eq!(JsonlLogger::from_env(Some("p".to_string())).message(&sample()), Some(line));
}

#[test]
fn lines_hold_no_line_break() {
    assert!(!message_text(&sample()).contains('\n'));
    let ts = Timestamp { secs: 0, nanos: 0 };
    assert!(!event_text(ts, "a\nb", &fields(&[("c\nd", Value::from("e\nf"))])).contains('\n'));
}

#[test]
fn stamps_carry_milliseconds() {
    assert_eq!(stamp(Timestamp { secs: 0, nanos: 999_999_999 }), "1970-01-01T00:00:00.999Z");
    assert_eq!(stamp(Timestamp { secs: 59, nanos: 1_000_000_000 }), "1970-01-01T00:00:60.000Z");
    let now = now();
    assert!(now.ends_with('Z'));
    assert_eq!(now.len(), 24);
    assert_eq!(stamp(Timestamp { secs: 253_402_300_799, nanos: 0 }), "9999-12-31T23:59:59.000Z");
    assert_eq!(stamp(Timestamp { secs: -62_167_219_200, nanos: 0 }), "0000-01-01T00:00:00.000Z");
    chrono::DateTime::parse_from_rfc3339(&now).unwrap();
}
