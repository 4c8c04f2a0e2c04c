use agent_salon::metrics::{normalise_kind, MetricKind, Metrics};

#[test]
fn normalises_known_kinds_verbatim() {
    for k in ["info", "status", "ack", "request", "question", "reply"] {
        assert_eq!(normalise_kind(Some(k)), k);
    }
}

#[test]
fn unknown_kind_collapses_to_other() {
    assert_eq!(normalise_kind(Some("urgent-typhoon")), "other");
    assert_eq!(normalise_kind(Some("")), "other");
}

#[test]
fn missing_kind_is_none() {
    assert_eq!(normalise_kind(None), "none");
}

#[test]
fn kinds_are_told_apart_by_case() {
    assert_eq!(normalise_kind(Some("Info")), "other");
    assert_eq!(normalise_kind(Some("other")), "other");
    assert_eq!(normalise_kind(Some("none")), "other");
}

#[test]
fn metrics_are_registered_in_order() {
    let m = Metrics::new();
    assert_eq!(m.prefix, "agent_salon");
    let names: Vec<&str> = m.definitions.iter().map(|d| d.name).collect();
    assert_eq!(
        names,
        vec![
            "messages",
            "liveness_probe",
            "send_failures",
            "send_message_duration_seconds",
            "active_sessions",
            "session_events",
            "messages_stored",
            "db_size_bytes",
            "build_info",
        ]
    );
    assert_eq!(m.definitions[3].kind, MetricKind::Histogram);
    assert_eq!(m.definitions[4].help, "Currently connected MCP sessions");
    assert_eq!(Metrics::default().definitions.len(), names.len());
}

#[test]
fn metric_names_differ() {
    let m = Metrics::new();
    for (i, a) in m.definitions.iter().enumerate() {
        for b in &m.definitions[i + 1..] {
            assert_ne!(a.name, b.name);
        }
    }
}
