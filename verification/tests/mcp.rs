use agent_salon::config::parse_aliases;
use agent_salon::db::Via;
use agent_salon::http::{check_notify, handle_metrics, handle_notify, NotifyPayload, NotifyQuery};
use agent_salon::jsonl::event_text;
use agent_salon::mcp::{
    extract_label, is_labelled, DeliveryContext, SalonHandler, SalonState, SendMessageParams,
    Session,
};
use agent_salon::metrics::MetricUpdate;
use agent_salon::time::Timestamp;
use serde_json::Value;

fn salon() -> SalonState {
    SalonState::new(9315, parse_aliases(""))
}

fn labels(state: &SalonState) -> Vec<Option<&str>> {
    state.sessions.iter().map(|s| s.label.as_deref()).collect()
}

#[test]
fn finds_the_label_of_a_query() {
    assert_eq!(extract_label("label=laptop-a").as_deref(), Some("laptop-a"));
    assert_eq!(extract_label("x=1&label=a=b&label=c").as_deref(), Some("a=b"));
    assert_eq!(extract_label("label=").as_deref(), Some(""));
    assert_eq!(extract_label("label=a%20b").as_deref(), Some("a%20b"));
    assert_eq!(extract_label("label"), None);
    assert_eq!(extract_label("xlabel=a"), None);
    assert_eq!(extract_label(""), None);
}

#[test]
fn labels_are_compared_whole() {
    let s = Session { id: 1, label: Some("ab".to_string()) };
    assert!(is_labelled(&s, "ab"));
    assert!(!is_labelled(&s, "a"));
    assert!(!is_labelled(&Session { id: 1, label: None }, ""));
}

#[test]
fn a_label_has_one_owner() {
    let mut state = salon();
    let mut first = SalonHandler::new();
    let a = first.register(&mut state, Some("label=a"), None, 1);
    assert_eq!((a.id, a.active, a.evicted), (1, 1, 0));
    SalonHandler::new().register(&mut state, None, None, 2);
    SalonHandler::new().register(&mut state, Some("label=b"), None, 3);
    SalonHandler::new().register(&mut state, None, None, 4);
    let mut again = SalonHandler::new();
    let b = again.register(&mut state, Some("label=a"), Some("sid".to_string()), 5);
    assert_eq!((b.active, b.evicted), (4, 1));
    assert_eq!(labels(&state), vec![None, Some("b"), None, Some("a")]);
    assert_eq!(state.sessions[3].id, 5);
    assert_eq!(again.self_label.as_deref(), Some("a"));
    assert_eq!(again.self_session_id.as_deref(), Some("sid"));
}

#[test]
fn joining_has_effects() {
    let mut state = salon();
    SalonHandler::new().register(&mut state, Some("label=a"), None, 1);
    let r = SalonHandler::new().register(&mut state, Some("label=a"), Some("s".to_string()), 2);
    assert!(matches!(&r.effects.metrics[0],
        MetricUpdate::SessionEvents(l, 1) if l.event == "connected"));
    assert!(matches!(&r.effects.metrics[1],
        MetricUpdate::SessionEvents(l, 1) if l.event == "evicted"));
    assert!(matches!(&r.effects.metrics[2], MetricUpdate::ActiveSessions(1)));
    assert_eq!(r.effects.metrics.len(), 3);
    let line = |i: usize| {
        let e = &r.effects.events[i];
        event_text(Timestamp { secs: 0, nanos: 0 }, e.event, &e.fields)
    };
    assert_eq!(
        line(0),
        "{\"ts\":\"1970-01-01T00:00:00.000Z\",\"kind\":\"event\",\"event\":\"session_connected\",\
         \"active\":1,\"evicted\":1,\"label\":\"a\",\"session_id\":\"s\"}"
    );
    assert_eq!(
        line(1),
        "{\"ts\":\"1970-01-01T00:00:00.000Z\",\"kind\":\"event\",\"event\":\"session_evicted\",\
         \"count\":1,\"label\":\"a\"}"
    );
    assert_eq!(r.effects.events.len(), 2);
    let quiet = SalonHandler::new().register(&mut state, None, None, 3);
    assert_eq!((quiet.effects.metrics.len(), quiet.effects.events.len()), (2, 1));
}

#[test]
fn identifiers_are_version_seven() {
    let mut state = salon();
    let a = SalonHandler::new().on_initialized(&mut state, None, None);
    let b = SalonHandler::new().on_initialized(&mut state, Some("label=a"), None);
    assert_ne!(a.id, b.id);
    for id in [a.id, b.id] {
        assert_eq!(uuid::Uuid::from_u128(id).get_version_num(), 7);
    }
    assert_eq!(state.sessions.len(), 2);
}

#[test]
fn status_is_exact() {
    let mut state = salon();
    let h = SalonHandler::new();
    assert_eq!(
        h.salon_status(&state),
        "Notify endpoint:  http://127.0.0.1:9315/notify\n\
         MCP endpoint:     http://127.0.0.1:9315/mcp\n\
         Active sessions (0):\n  (none)\nMessages relayed: 0"
    );
    SalonHandler::new().register(&mut state, Some("label=laptop-a"), None, 1);
    SalonHandler::new().register(&mut state, None, None, 2);
    state.message_count = 12;
    assert_eq!(
        h.salon_status(&state),
        "Notify endpoint:  http://127.0.0.1:9315/notify\n\
         MCP endpoint:     http://127.0.0.1:9315/mcp\n\
         Active sessions (2):\n  [0] label=laptop-a\n  [1] label=<unlabeled>\n\
         Messages relayed: 12"
    );
}

fn params(target: Option<&str>) -> SendMessageParams {
    let mut meta = serde_json::Map::new();
    meta.insert("source".to_string(), Value::from("somebody-else"));
    SendMessageParams {
        content: "hi".to_string(),
        target: target.map(|t| t.to_string()),
        meta: Some(meta),
    }
}

#[test]
fn sending_takes_a_label() {
    let mut state = salon();
    let h = SalonHandler::new();
    let e = h.send_message(&mut state, params(None)).err().unwrap();
    assert_eq!(e.code, -32602);
    assert_eq!(
        e.message,
        "This session has no label. Reconnect with ?label=<name> on the /mcp URL before calling \
         send_message."
    );
    assert_eq!(state.message_count, 0);
}

#[test]
fn the_sender_is_the_own_label() {
    let mut state = salon();
    let mut h = SalonHandler::new();
    h.register(&mut state, Some("label=me"), Some("sid".to_string()), 1);
    let out = h.send_message(&mut state, params(Some("you"))).ok().unwrap();
    assert_eq!(out.payload.source.as_deref(), Some("me"));
    assert_eq!(out.payload.target.as_deref(), Some("you"));
    assert_eq!(out.payload.content, "hi");
    assert_eq!(out.ctx.via, Some(Via::Tool));
    assert_eq!(out.ctx.sender_session_id.as_deref(), Some("sid"));
    assert_eq!(out.ctx.sender_addr, None);
    assert_eq!(out.reply, "delivered to sessions labelled 'you'");
    assert_eq!(state.message_count, 1);
    let out = h.send_message(&mut state, params(None)).ok().unwrap();
    assert_eq!(out.reply, "broadcast to all connected sessions");
    assert_eq!(state.message_count, 2);
}

#[test]
fn the_webhook_names_its_sender_in_the_url() {
    let mut state = salon();
    state.message_count = u64::MAX;
    let r = handle_notify(
        &mut state,
        "10.0.0.1:4".to_string(),
        NotifyQuery { label: "ci".to_string() },
        NotifyPayload {
            content: "done".to_string(),
            target: None,
            meta: None,
            source: Some("forged".to_string()),
        },
    );
    assert_eq!(r.status, 202);
    assert_eq!(r.payload.source.as_deref(), Some("ci"));
    assert_eq!(r.ctx.via, Some(Via::Notify));
    assert_eq!(r.ctx.sender_addr.as_deref(), Some("10.0.0.1:4"));
    assert_eq!(r.ctx.sender_session_id, None);
    assert_eq!(state.message_count, 0);
}

#[test]
fn a_request_without_label_or_body_is_refused() {
    let query = || Some(NotifyQuery { label: "ci".to_string() });
    let body = || {
        Some(NotifyPayload {
            content: "x".to_string(),
            target: None,
            meta: None,
            source: None,
        })
    };
    assert_eq!(check_notify(None, None).err(), Some(400));
    assert_eq!(check_notify(None, body()).err(), Some(400));
    assert_eq!(check_notify(query(), None).err(), Some(422));
    let (q, p) = check_notify(query(), body()).ok().unwrap();
    assert_eq!((q.label.as_str(), p.content.as_str()), ("ci", "x"));
}

#[test]
fn metrics_are_served_as_text() {
    let ok = handle_metrics(Ok("# EOF\n".to_string()));
    assert_eq!((ok.status, ok.content_type), (200, "text/plain; version=0.0.4"));
    assert_eq!(ok.body, "# EOF\n");
    let bad = handle_metrics(Err("boom".to_string()));
    assert_eq!(bad.status, 500);
    assert_eq!(bad.body, "metrics encode failed: boom");
}

#[test]
fn a_context_starts_empty() {
    let c = DeliveryContext::default();
    assert!(c.via.is_none() && c.sender_addr.is_none() && c.sender_session_id.is_none());
}
