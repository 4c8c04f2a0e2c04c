//! The metrics of the salon: which there are, and how a delivery changes them.
//!
//! The metric set is small and bounded: every label value comes from a
//! controlled vocabulary (session labels, known kinds, fixed result strings),
//! so the number of series is predictable.
use crate::text::{decimal, same, u64_text};
use vstd::prelude::*;

verus! {

// ---------------------------------------------------------------------------
// Labels
// ---------------------------------------------------------------------------

/// Labels attached to a relayed message. `target` is `"<broadcast>"` when the
/// sender didn't pick one. `kind` is taken from `meta.kind`, normalised.
#[derive(Clone, Debug, Hash, PartialEq, Eq)]
pub struct MessageLabels {
    pub source: String,
    pub target: String,
    pub kind: String,
}

/// Labels of a liveness probe.
#[derive(Clone, Debug, Hash, PartialEq, Eq)]
pub struct LivenessLabels {
    pub target: String,
    /// `ok` | `timeout`
    pub result: String,
    /// 1-based number of the attempt that produced `result`.
    pub attempt: String,
}

/// Labels of a failed send.
#[derive(Clone, Debug, Hash, PartialEq, Eq)]
pub struct SendFailureLabels {
    /// `target_unknown` | `liveness_timeout` | `delivery_error`
    pub reason: String,
}

/// Labels of a session event.
#[derive(Clone, Debug, Hash, PartialEq, Eq)]
pub struct SessionEventLabels {
    /// `connected` | `evicted`
    pub event: String,
}

/// Labels that carry the running version.
#[derive(Clone, Debug, Hash, PartialEq, Eq)]
pub struct BuildInfoLabels {
    pub version: String,
}

// ---------------------------------------------------------------------------
// Kinds
// ---------------------------------------------------------------------------

/// The canonical `kind` values.
pub open spec fn known_kind(k: Seq<char>) -> bool {
    k == "info"@ || k == "status"@ || k == "ack"@ || k == "request"@ || k == "question"@ || k
        == "reply"@
}

/// The label value of a raw `kind`.
pub open spec fn normal_kind(raw: Option<Seq<char>>) -> Seq<char> {
    match raw {
        Some(k) => if known_kind(k) {
            k
        } else {
            "other"@
        },
        None => "none"@,
    }
}

/// The label value of a raw `kind`: itself where it is a canonical one,
/// `"other"` where it is not, `"none"` where there is none.
pub fn normalise_kind(raw: Option<&str>) -> (r: String)
    ensures
        r@ == normal_kind(
            match raw {
                Some(k) => Some(k@),
                None => None,
            },
        ),
{
    match raw {
        Some(k) => if same(k, "info") || same(k, "status") || same(k, "ack") || same(k, "request")
            || same(k, "question") || same(k, "reply") {
            k.to_owned()
        } else {
            "other".to_owned()
        },
        None => "none".to_owned(),
    }
}

/// However many kinds senders make up, the label takes one of eight values.
pub proof fn law_kinds_are_bounded(raw: Option<Seq<char>>)
    ensures
        known_kind(normal_kind(raw)) || normal_kind(raw) == "other"@ || normal_kind(raw)
            == "none"@,
{
}

// ---------------------------------------------------------------------------
// The set of metrics
// ---------------------------------------------------------------------------

/// What a metric is.
#[derive(Clone, Copy, Debug, PartialEq, Eq, Structural)]
pub enum MetricKind {
    Counter,
    Gauge,
    Histogram,
    CounterFamily,
    GaugeFamily,
}

/// A metric as it is registered.
#[derive(Clone, Debug)]
pub struct MetricDefinition {
    pub name: &'static str,
    pub help: &'static str,
    pub kind: MetricKind,
}

/// A metric definition over characters.
pub struct DefinitionView {
    pub name: Seq<char>,
    pub help: Seq<char>,
    pub kind: MetricKind,
}

impl View for MetricDefinition {
    type V = DefinitionView;

    open spec fn view(&self) -> DefinitionView {
        DefinitionView { name: self.name@, help: self.help@, kind: self.kind }
    }
}

/// The registry's layout: a common prefix, and the metrics under it in the
/// order in which they are registered.
#[derive(Clone, Debug)]
pub struct Metrics {
    pub prefix: &'static str,
    pub definitions: Vec<MetricDefinition>,
}

/// Every metric of the salon.
pub open spec fn metric_set() -> Seq<DefinitionView> {
    seq![
        DefinitionView {
            name: "messages"@,
            help: "Messages relayed to subscribers, by source/target/kind"@,
            kind: MetricKind::CounterFamily,
        },
        DefinitionView {
            name: "liveness_probe"@,
            help: "Outcomes of the per-message liveness probe (server-initiated ping)"@,
            kind: MetricKind::CounterFamily,
        },
        DefinitionView {
            name: "send_failures"@,
            help: "Messages that failed to reach any subscriber, by reason"@,
            kind: MetricKind::CounterFamily,
        },
        DefinitionView {
            name: "send_message_duration_seconds"@,
            help: "End-to-end duration of a send_message call (probe + send + persist)"@,
            kind: MetricKind::Histogram,
        },
        DefinitionView {
            name: "active_sessions"@,
            help: "Currently connected MCP sessions"@,
            kind: MetricKind::Gauge,
        },
        DefinitionView {
            name: "session_events"@,
            help: "Session lifecycle events (connected, evicted by same-label reconnect)"@,
            kind: MetricKind::CounterFamily,
        },
        DefinitionView {
            name: "messages_stored"@,
            help: "Messages successfully persisted to the SQLite store"@,
            kind: MetricKind::Counter,
        },
        DefinitionView {
            name: "db_size_bytes"@,
            help: "Size of the SQLite database file on disk"@,
            kind: MetricKind::Gauge,
        },
        DefinitionView {
            name: "build_info"@,
            help: "Build identity (always 1); label-only carrier for the running version"@,
            kind: MetricKind::GaugeFamily,
        },
    ]
}

impl Metrics {
    /// The metrics of the salon.
    pub fn new() -> (r: Self)
        ensures
            r.prefix@ == "agent_salon"@,
            r.definitions@.map_values(|d: MetricDefinition| d@) == metric_set(),
    {
        let r = Metrics {
            prefix: "agent_salon",
            definitions: vec![
                MetricDefinition {
                    name: "messages",
                    help: "Messages relayed to subscribers, by source/target/kind",
                    kind: MetricKind::CounterFamily,
                },
                MetricDefinition {
                    name: "liveness_probe",
                    help: "Outcomes of the per-message liveness probe (server-initiated ping)",
                    kind: MetricKind::CounterFamily,
                },
                MetricDefinition {
                    name: "send_failures",
                    help: "Messages that failed to reach any subscriber, by reason",
                    kind: MetricKind::CounterFamily,
                },
                MetricDefinition {
                    name: "send_message_duration_seconds",
                    help: "End-to-end duration of a send_message call (probe + send + persist)",
                    kind: MetricKind::Histogram,
                },
                MetricDefinition {
                    name: "active_sessions",
                    help: "Currently connected MCP sessions",
                    kind: MetricKind::Gauge,
                },
                MetricDefinition {
                    name: "session_events",
                    help: "Session lifecycle events (connected, evicted by same-label reconnect)",
                    kind: MetricKind::CounterFamily,
                },
                MetricDefinition {
                    name: "messages_stored",
                    help: "Messages successfully persisted to the SQLite store",
                    kind: MetricKind::Counter,
                },
                MetricDefinition {
                    name: "db_size_bytes",
                    help: "Size of the SQLite database file on disk",
                    kind: MetricKind::Gauge,
                },
                MetricDefinition {
                    name: "build_info",
                    help: "Build identity (always 1); label-only carrier for the running version",
                    kind: MetricKind::GaugeFamily,
                },
            ],
        };
        proof {
            assert(r.definitions@.map_values(|d: MetricDefinition| d@) =~= metric_set());
        }
        r
    }
}

impl Default for Metrics {
    fn default() -> (r: Self)
        ensures
            r.prefix@ == "agent_salon"@,
            r.definitions@.map_values(|d: MetricDefinition| d@) == metric_set(),
    {
        Metrics::new()
    }
}

/// No two metrics share a name.
pub proof fn law_metric_names_differ(i: int, j: int)
    requires
        0 <= i < j < metric_set().len(),
    ensures
        metric_set()[i].name != metric_set()[j].name,
{
    reveal_strlit("messages");
    reveal_strlit("liveness_probe");
    reveal_strlit("send_failures");
    reveal_strlit("send_message_duration_seconds");
    reveal_strlit("active_sessions");
    reveal_strlit("session_events");
    reveal_strlit("messages_stored");
    reveal_strlit("db_size_bytes");
    reveal_strlit("build_info");
    let a = metric_set()[i].name;
    let b = metric_set()[j].name;
    if a == b {
        assert(a.len() == b.len());
        assert(a[0] == b[0]);
        assert(a[1] == b[1]);
    }
}

// ---------------------------------------------------------------------------
// Updates
// ---------------------------------------------------------------------------

/// One change of a metric.
#[derive(Clone, Debug)]
pub enum MetricUpdate {
    /// A message reached a subscriber.
    Message(MessageLabels),
    /// A liveness probe came to an end.
    Liveness(LivenessLabels),
    /// A send failed.
    SendFailure(SendFailureLabels),
    /// Session events, and how many of them.
    SessionEvents(SessionEventLabels, u64),
    /// The number of registered sessions.
    ActiveSessions(u64),
    /// A message was stored.
    MessageStored,
}

/// A change of a metric over characters.
pub enum UpdateView {
    Message { source: Seq<char>, target: Seq<char>, kind: Seq<char> },
    Liveness { target: Seq<char>, result: Seq<char>, attempt: Seq<char> },
    SendFailure { reason: Seq<char> },
    SessionEvents { event: Seq<char>, count: nat },
    ActiveSessions { count: nat },
    MessageStored,
}

impl View for MetricUpdate {
    type V = UpdateView;

    open spec fn view(&self) -> UpdateView {
        match *self {
            MetricUpdate::Message(l) => UpdateView::Message {
                source: l.source@,
                target: l.target@,
                kind: l.kind@,
            },
            MetricUpdate::Liveness(l) => UpdateView::Liveness {
                target: l.target@,
                result: l.result@,
                attempt: l.attempt@,
            },
            MetricUpdate::SendFailure(l) => UpdateView::SendFailure { reason: l.reason@ },
            MetricUpdate::SessionEvents(l, n) => UpdateView::SessionEvents {
                event: l.event@,
                count: n as nat,
            },
            MetricUpdate::ActiveSessions(n) => UpdateView::ActiveSessions { count: n as nat },
            MetricUpdate::MessageStored => UpdateView::MessageStored,
        }
    }
}

/// The views of a list of updates.
pub open spec fn update_views(v: Seq<MetricUpdate>) -> Seq<UpdateView> {
    v.map_values(|u: MetricUpdate| u@)
}

/// The outcome of a probe.
pub(crate) fn liveness_update(target: &str, alive: bool, attempts: u32) -> (r: MetricUpdate)
    ensures
        r@ == (UpdateView::Liveness {
            target: target@,
            result: if alive {
                "ok"@
            } else {
                "timeout"@
            },
            attempt: decimal(attempts as nat),
        }),
{
    MetricUpdate::Liveness(
        LivenessLabels {
            target: target.to_owned(),
            result: if alive {
                "ok".to_owned()
            } else {
                "timeout".to_owned()
            },
            attempt: u64_text(attempts as u64),
        },
    )
}

/// A failed send, by its reason.
pub(crate) fn failure_update(reason: &str) -> (r: MetricUpdate)
    ensures
        r@ == (UpdateView::SendFailure { reason: reason@ }),
{
    MetricUpdate::SendFailure(SendFailureLabels { reason: reason.to_owned() })
}

/// Session events of one name.
pub(crate) fn session_update(event: &str, count: u64) -> (r: MetricUpdate)
    ensures
        r@ == (UpdateView::SessionEvents { event: event@, count: count as nat }),
{
    MetricUpdate::SessionEvents(SessionEventLabels { event: event.to_owned() }, count)
}

/// The six canonical kinds are kept as they are; any other becomes `other`, and
/// no kind becomes `none`.
pub proof fn law_kinds_are_kept_or_other(k: Seq<char>)
    ensures
        normal_kind(Some("info"@)) == "info"@,
        normal_kind(Some("status"@)) == "status"@,
        normal_kind(Some("ack"@)) == "ack"@,
        normal_kind(Some("request"@)) == "request"@,
        normal_kind(Some("question"@)) == "question"@,
        normal_kind(Some("reply"@)) == "reply"@,
        k != "info"@ && k != "status"@ && k != "ack"@ && k != "request"@ && k != "question"@ && k
            != "reply"@ ==> normal_kind(Some(k)) == "other"@,
        normal_kind(None) == "none"@,
{
}

/// The salon counts messages, probes, failures, session events and stored
/// messages, times the sends, and gauges its sessions, its database and its
/// version.
pub proof fn law_metrics_are_registered()
    ensures
        metric_set().len() == 9,
        metric_set()[0].name == "messages"@ && metric_set()[0].kind == MetricKind::CounterFamily,
        metric_set()[1].name == "liveness_probe"@ && metric_set()[1].kind
            == MetricKind::CounterFamily,
        metric_set()[2].name == "send_failures"@ && metric_set()[2].kind
            == MetricKind::CounterFamily,
        metric_set()[3].name == "send_message_duration_seconds"@ && metric_set()[3].kind
            == MetricKind::Histogram,
        metric_set()[4].name == "active_sessions"@ && metric_set()[4].kind == MetricKind::Gauge,
        metric_set()[5].name == "session_events"@ && metric_set()[5].kind
            == MetricKind::CounterFamily,
        metric_set()[6].name == "messages_stored"@ && metric_set()[6].kind == MetricKind::Counter,
        metric_set()[7].name == "db_size_bytes"@ && metric_set()[7].kind == MetricKind::Gauge,
        metric_set()[8].name == "build_info"@ && metric_set()[8].kind == MetricKind::GaugeFamily,
{
}

} // verus!
