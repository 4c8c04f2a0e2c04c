use agent_salon::config::parse_aliases;
use agent_salon::db::{message_to_row, row_to_message, Via};
use agent_salon::delivery::{
    begin_delivery, deliver_notification, resolve_target, stored_updates, Action, Delivery,
    Outcome, Report, LIVENESS_PROBE_MAX_ATTEMPTS,
};
use agent_salon::http::NotifyPayload;
use agent_salon::jsonl::event_text;
use agent_salon::log::stamp;
use agent_salon::mcp::{DeliveryContext, Effects, SalonHandler, SalonState};
use agent_salon::metrics::MetricUpdate;
use agent_salon::time::Timestamp;
use serde_json::Value;

const T0: Timestamp = Timestamp { secs: 1_767_225_600, nanos: 0 };

fn join(state: &mut SalonState, label: Option<&str>, id: u128) {
    let query = label.map(|l| format!("label={l}"));
    SalonHandler::new().register(state, query.as_deref(), None, id);
}

fn salon(labels: &[Option<&str>]) -> SalonState {
    let mut state = SalonState::new(9315, parse_aliases("notes:a,a:b"));
    for (i, l) in labels.iter().enumerate() {
        join(&mut state, *l, 10 + i as u128);
    }
    state
}

fn payload(target: Option<&str>) -> NotifyPayload {
    let mut meta = serde_json::Map::new();
    meta.insert("source".to_string(), Value::from("forged"));
    meta.insert("id".to_string(), Value::from(7));
    meta.insert("kind".to_string(), Value::from("ack"));
    NotifyPayload {
        content: "hello".to_string(),
        target: target.map(|t| t.to_string()),
        meta: Some(meta),
        source: Some("me".to_string()),
    }
}

fn begin(state: &SalonState, target: Option<&str>) -> Delivery {
    begin_delivery(state, &payload(target), DeliveryContext::default(), 1, T0)
}

fn describe(e: &Effects) -> Vec<String> {
    let mut out: Vec<String> = e
        .metrics
        .iter()
        .map(|m| match m {
            MetricUpdate::Message(l) => format!("message {} {} {}", l.source, l.target, l.kind),
            MetricUpdate::Liveness(l) => format!("probe {} {} {}", l.target, l.result, l.attempt),
            MetricUpdate::SendFailure(l) => format!("failure {}", l.reason),
            MetricUpdate::SessionEvents(l, n) => format!("session {} {n}", l.event),
            MetricUpdate::ActiveSessions(n) => format!("active {n}"),
            MetricUpdate::MessageStored => "stored".to_string(),
        })
        .collect();
    for event in &e.events {
        let line = event_text(Timestamp { secs: 0, nanos: 0 }, event.event, &event.fields);
        out.push(line.replace("{\"ts\":\"1970-01-01T00:00:00.000Z\",\"kind\":\"event\",", "{"));
    }
    out
}

#[test]
fn identity_is_injected() {
    let state = salon(&[Some("b")]);
    let d = begin(&state, Some("b"));
    assert_eq!(d.meta["source"], "me");
    assert_eq!(d.meta["ts"], "2026-01-01T00:00:00.000Z");
    assert_eq!(d.meta["ts"], stamp(T0).as_str());
    assert_eq!(d.meta["id"], "00000000-0000-0000-0000-000000000001");
    assert_eq!(d.meta["kind"], "ack");
    assert_eq!(d.kind, "ack");
    assert_eq!(d.params["content"], "hello");
    assert_eq!(d.params["meta"], Value::Object(d.meta.clone()));
    assert_eq!(d.params.len(), 2);
    assert_eq!(d.via, Via::Notify);
}

#[test]
fn aliases_win_over_labels() {
    let aliases = parse_aliases("notes:a,a:b");
    let resolve = |t: &str| resolve_target(&aliases, &Some(t.to_string())).unwrap();
    assert_eq!(resolve("notes"), "a");
    assert_eq!(resolve("a"), "b");
    assert_eq!(resolve("b"), "b");
    assert_eq!(resolve_target(&aliases, &None), None);
    let state = salon(&[Some("a"), Some("b")]);
    let d = begin(&state, Some("a"));
    assert_eq!(d.target.as_deref(), Some("b"));
    assert_eq!(d.candidates.len(), 1);
    assert_eq!(d.candidates[0].id, 11);
}

#[test]
fn a_target_selects_its_label_and_a_broadcast_everybody() {
    let state = salon(&[Some("b"), None, Some("c")]);
    assert_eq!(begin(&state, Some("c")).candidates[0].id, 12);
    assert!(begin(&state, Some("")).candidates.is_empty());
    let d = begin(&state, None);
    let all: Vec<(u128, &str)> =
        d.candidates.iter().map(|c| (c.id, c.label.as_str())).collect();
    assert_eq!(all, vec![(10, "b"), (11, "<unlabeled>"), (12, "c")]);
}

#[test]
fn a_targeted_message_is_delivered() {
    let mut state = salon(&[Some("b")]);
    let mut d = begin(&state, Some("b"));
    assert_eq!(d.next_action(), Action::Probe(10));
    assert_eq!(describe(&d.step(&state, Report::Probed(true))), vec!["probe b ok 1"]);
    assert_eq!(d.next_action(), Action::Send(10));
    assert_eq!(describe(&d.step(&state, Report::Sent)), vec!["message me b ack"]);
    assert_eq!(d.next_action(), Action::Finish);
    let done = d.finish(&mut state);
    assert_eq!(done.row.delivered_to, vec!["b"]);
    assert!(done.row.delivery_errors.is_empty());
    assert_eq!(done.row.source, "me");
    assert_eq!(done.row.target.as_deref(), Some("b"));
    assert_eq!(describe(&done.effects), vec!["active 1"]);
    assert_eq!(state.sessions.len(), 1);
}

#[test]
fn a_dead_target_is_skipped_and_kept() {
    let mut state = salon(&[Some("b")]);
    let mut d = begin(&state, Some("b"));
    for attempt in 1..LIVENESS_PROBE_MAX_ATTEMPTS {
        assert_eq!(d.next_action(), Action::Probe(10), "attempt {attempt}");
        assert!(describe(&d.step(&state, Report::Probed(false))).is_empty());
        assert_eq!(d.next_action(), Action::Wait);
        assert!(describe(&d.step(&state, Report::Waited)).is_empty());
    }
    assert_eq!(
        describe(&d.step(&state, Report::Probed(false))),
        vec![
            "probe b timeout 3",
            "failure liveness_timeout",
            "{\"event\":\"delivery_skipped\",\"attempts\":3,\
             \"message_id\":\"00000000-0000-0000-0000-000000000001\",\
             \"reason\":\"liveness_timeout\",\"target\":\"b\"}",
        ]
    );
    assert_eq!(d.outcomes, vec![Outcome::Skipped]);
    let done = d.finish(&mut state);
    assert_eq!(done.row.delivery_errors, vec!["b"]);
    assert!(done.row.delivered_to.is_empty());
    assert_eq!(describe(&done.effects), vec!["active 1"]);
    assert_eq!(state.sessions.len(), 1);
}

#[test]
fn a_retry_finds_the_session_that_took_over() {
    let mut state = salon(&[Some("b")]);
    let mut d = begin(&state, Some("b"));
    d.step(&state, Report::Probed(false));
    join(&mut state, Some("b"), 99);
    d.step(&state, Report::Waited);
    assert_eq!(d.next_action(), Action::Probe(99));
    assert_eq!(describe(&d.step(&state, Report::Probed(true))), vec!["probe b ok 2"]);
    assert_eq!(d.next_action(), Action::Send(99));
    d.step(&state, Report::SendFailed("closed".to_string()));
    let done = d.finish(&mut state);
    assert!(done.row.delivered_to.is_empty());
    assert_eq!(done.row.delivery_errors, vec!["b"]);
    assert!(state.sessions.is_empty());
}

#[test]
fn a_newcomer_outlives_a_send_that_failed_before_it_came() {
    let mut state = salon(&[Some("b")]);
    let mut d = begin(&state, Some("b"));
    d.step(&state, Report::Probed(true));
    d.step(&state, Report::SendFailed("closed".to_string()));
    join(&mut state, Some("b"), 99);
    d.finish(&mut state);
    assert_eq!(state.sessions.len(), 1);
    assert_eq!(state.sessions[0].id, 99);
}

#[test]
fn a_target_that_left_is_given_up() {
    let mut state = salon(&[Some("b")]);
    let mut d = begin(&state, Some("b"));
    d.step(&state, Report::Probed(false));
    state.sessions.clear();
    let effects = describe(&d.step(&state, Report::Waited));
    assert_eq!(effects[0], "probe b timeout 1");
    assert_eq!(d.next_action(), Action::Finish);
}

#[test]
fn a_failed_send_removes_the_session() {
    let mut state = salon(&[Some("b"), Some("c")]);
    let mut d = begin(&state, Some("b"));
    d.step(&state, Report::Probed(true));
    assert_eq!(
        describe(&d.step(&state, Report::SendFailed("closed".to_string()))),
        vec![
            "failure delivery_error",
            "{\"event\":\"send_failed\",\"error\":\"closed\",\
             \"message_id\":\"00000000-0000-0000-0000-000000000001\",\"target\":\"b\"}",
        ]
    );
    let done = d.finish(&mut state);
    assert_eq!(done.row.delivery_errors, vec!["b"]);
    assert_eq!(describe(&done.effects), vec!["active 1"]);
    assert_eq!(state.sessions[0].id, 11);
}

#[test]
fn a_broadcast_probes_each_session_once() {
    let mut state = salon(&[Some("b"), None, Some("c")]);
    let mut d = begin(&state, None);
    d.step(&state, Report::Probed(false));
    assert_eq!(d.next_action(), Action::Probe(11));
    d.step(&state, Report::Probed(true));
    assert_eq!(describe(&d.step(&state, Report::Sent)), vec!["message me <broadcast> ack"]);
    d.step(&state, Report::Probed(true));
    d.step(&state, Report::SendFailed("x".to_string()));
    assert_eq!(d.outcomes, vec![Outcome::Skipped, Outcome::Delivered, Outcome::Failed]);
    let done = d.finish(&mut state);
    assert_eq!(done.row.delivered_to, vec!["<unlabeled>"]);
    assert_eq!(done.row.delivery_errors, vec!["b", "c"]);
    assert_eq!(done.row.target, None);
    assert_eq!(state.sessions.len(), 2);
}

#[test]
fn nobody_there() {
    let mut state = salon(&[None]);
    let d = begin(&state, Some("b"));
    assert_eq!(d.next_action(), Action::Finish);
    let done = d.finish(&mut state);
    assert_eq!(describe(&done.effects), vec!["failure target_unknown", "active 1"]);
    let mut empty = salon(&[]);
    let done = begin(&empty, None).finish(&mut empty);
    assert_eq!(describe(&done.effects), vec!["active 0"]);
}

#[test]
fn reports_that_nobody_waits_for_change_nothing() {
    let state = salon(&[Some("b")]);
    let mut d = begin(&state, Some("b"));
    for report in [Report::Waited, Report::Sent, Report::SendFailed("x".to_string())] {
        assert!(describe(&d.step(&state, report)).is_empty());
        assert_eq!(d.next_action(), Action::Probe(10));
    }
}

#[test]
fn every_run_ends() {
    let state = salon(&[Some("b"), None, Some("c")]);
    for target in [None, Some("b"), Some("zzz")] {
        for alive in [false, true] {
            let mut d = begin(&state, target);
            let mut steps = 0;
            loop {
                let report = match d.next_action() {
                    Action::Probe(_) => Report::Probed(alive),
                    Action::Wait => Report::Waited,
                    Action::Send(_) => Report::Sent,
                    Action::Finish => break,
                };
                d.step(&state, report);
                steps += 1;
                assert!(steps <= 6 * d.candidates.len());
            }
            assert_eq!(d.outcomes.len(), d.candidates.len());
        }
    }
}

#[test]
fn a_delivered_row_is_read_back() {
    let mut state = salon(&[Some("b")]);
    let p = payload(Some("notes"));
    let ctx = DeliveryContext {
        via: Some(Via::Tool),
        sender_addr: None,
        sender_session_id: Some("sid".to_string()),
    };
    let d = deliver_notification(&state, &p, ctx);
    assert_eq!(uuid::Uuid::from_u128(d.id).get_version_num(), 7);
    let row = d.finish(&mut state).row;
    assert_eq!(row.target.as_deref(), Some("a"));
    assert_eq!(row.meta["source"], "me");
    let back = row_to_message(&message_to_row(&row)).unwrap();
    assert_eq!(back.id, row.id);
    assert_eq!(back.ts, row.ts);
    assert_eq!(back.meta, row.meta);
    assert_eq!(back.sender_session_id.as_deref(), Some("sid"));
}

#[test]
fn a_payload_without_meta_or_sender() {
    let state = salon(&[]);
    let p = NotifyPayload {
        content: "x".to_string(),
        target: None,
        meta: None,
        source: None,
    };
    let d = begin_delivery(&state, &p, DeliveryContext::default(), 2, T0);
    let mut keys: Vec<&String> = d.meta.keys().collect();
    keys.sort();
    assert_eq!(keys, vec!["id", "ts"]);
    assert_eq!(d.kind, "none");
    let mut state = state;
    assert_eq!(d.finish(&mut state).row.source, "");
}

#[test]
fn a_kind_that_is_no_string_is_none() {
    let state = salon(&[]);
    let mut p = payload(None);
    p.meta.as_mut().unwrap().insert("kind".to_string(), Value::from(1));
    let d = begin_delivery(&state, &p, DeliveryContext::default(), 2, T0);
    assert_eq!(d.kind, "none");
    assert_eq!(d.meta["kind"], 1);
}

#[test]
fn storing_counts_where_it_worked() {
    assert!(matches!(stored_updates(true)[..], [MetricUpdate::MessageStored]));
    assert!(stored_updates(false).is_empty());
}
