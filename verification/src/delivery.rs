//! The delivery of one notification, as a machine that decides what to do next.
//!
//! A delivery begins with the candidates among the registered sessions. Each
//! is probed first, since a send alone does not tell whether anybody listens;
//! then the notification is sent to it. The machine asks for one action at a
//! time and is told what came of it. Between two actions the registry is free:
//! sessions may join, so that a retry can find the one that took over a label.
use crate::config::string_map;
use crate::db::{is_readable_object, MessageRow, MessageView, Via};
use crate::http::{NotifyPayload, PayloadView};
use crate::ids::{id_string, id_text, is_v7, new_id};
use crate::json::{
    copy_object, get_text, json_quote, lemma_json_quote, lemma_string_is_readable, members,
    new_object, no_members, object_text, object_value, put, readable, readable_members,
    reserved_key, text_less, text_member, Field, Object,
};
use crate::jsonl::{EventView, LogEvent};
use crate::log::{stamp, stamp_text};
use crate::mcp::{
    is_labelled, law_eviction_is_exact, law_eviction_keeps_owners, one_owner, remove_ids,
    session_views, shown_label, wears, without_ids, ContextView, DeliveryContext, Effects,
    EffectsView, SalonState, Session, SessionView, StateView,
};
use crate::metrics::{
    failure_update, liveness_update, normal_kind, normalise_kind, update_views, MessageLabels,
    MetricUpdate, UpdateView,
};
use crate::text::{decimal, opt_view, str_or, views};
use crate::time::{in_four_digit_years, millis_form, utc_now, Timestamp};
use vstd::hash_map::StringHashMap;
use vstd::prelude::*;

verus! {

/// How often a targeted session is probed before it is given up.
pub const LIVENESS_PROBE_MAX_ATTEMPTS: u32 = 3;

/// How long the answer to a probe is waited for, in milliseconds.
pub const LIVENESS_PROBE_TIMEOUT_MS: u64 = 5000;

/// The pause between two probes, in milliseconds. It gives the receiver room to
/// finish reconnecting.
pub const LIVENESS_PROBE_RETRY_BACKOFF_MS: u64 = 750;

// ---------------------------------------------------------------------------
// The machine
// ---------------------------------------------------------------------------

/// A session that the notification is meant for.
pub struct Candidate {
    pub id: u128,
    /// Its label at the start, or `<unlabeled>`.
    pub label: String,
}

/// A candidate over characters.
#[verifier::ext_equal]
pub struct CandidateView {
    pub id: u128,
    pub label: Seq<char>,
}

impl View for Candidate {
    type V = CandidateView;

    open spec fn view(&self) -> CandidateView {
        CandidateView { id: self.id, label: self.label@ }
    }
}

/// The views of a list of candidates.
pub open spec fn candidate_views(v: Seq<Candidate>) -> Seq<CandidateView> {
    v.map_values(|c: Candidate| c@)
}

/// What came of a candidate.
#[derive(Debug, Clone, Copy, PartialEq, Eq, Structural)]
pub enum Outcome {
    /// The notification was sent to it.
    Delivered,
    /// No probe of it was answered; it stays registered.
    Skipped,
    /// The send failed.
    Failed,
}

/// What the delivery waits for.
#[derive(Debug, Clone, Copy, PartialEq, Eq, Structural)]
pub enum Stage {
    /// The outcome of a probe, the attempt counted from one.
    Probing { session: u128, attempt: u32 },
    /// The end of the pause after an attempt.
    Waiting { attempt: u32 },
    /// The outcome of the send.
    Sending { session: u128 },
    /// Nothing: every candidate has an outcome.
    Done,
}

/// What is to be done next.
#[derive(Debug, Clone, Copy, PartialEq, Eq, Structural)]
pub enum Action {
    /// Ping a session, and report whether it answered in time.
    Probe(u128),
    /// Pause before the next probe.
    Wait,
    /// Send the notification to a session.
    Send(u128),
    /// Finish the delivery.
    Finish,
}

/// What came of an action.
#[derive(Debug, Clone)]
pub enum Report {
    /// A probe was answered, or was not.
    Probed(bool),
    /// The pause is over.
    Waited,
    /// The notification was sent.
    Sent,
    /// The send failed, for a reason.
    SendFailed(String),
}

/// A report over characters.
pub enum ReportView {
    Probed(bool),
    Waited,
    Sent,
    SendFailed(Seq<char>),
}

impl View for Report {
    type V = ReportView;

    open spec fn view(&self) -> ReportView {
        match *self {
            Report::Probed(alive) => ReportView::Probed(alive),
            Report::Waited => ReportView::Waited,
            Report::Sent => ReportView::Sent,
            Report::SendFailed(e) => ReportView::SendFailed(e@),
        }
    }
}

/// A delivery under way.
pub struct Delivery {
    pub id: u128,
    pub ts: Timestamp,
    pub via: Via,
    pub source: Option<String>,
    /// The label of the receiver, aliases resolved; none for a broadcast.
    pub target: Option<String>,
    pub content: String,
    pub meta: Object,
    /// The parameters of the notification that is sent.
    pub params: Object,
    pub kind: String,
    pub sender_addr: Option<String>,
    pub sender_session_id: Option<String>,
    pub candidates: Vec<Candidate>,
    /// What came of the candidates so far, in their order.
    pub outcomes: Vec<Outcome>,
    /// The sessions to which the send failed.
    pub failed: Vec<u128>,
    pub stage: Stage,
}

/// A delivery over characters.
#[verifier::ext_equal]
pub struct DeliveryView {
    pub id: u128,
    pub ts: Timestamp,
    pub via: Via,
    pub source: Option<Seq<char>>,
    pub target: Option<Seq<char>>,
    pub content: Seq<char>,
    pub meta: Map<Seq<char>, Seq<char>>,
    pub params: Map<Seq<char>, Seq<char>>,
    pub kind: Seq<char>,
    pub sender_addr: Option<Seq<char>>,
    pub sender_session_id: Option<Seq<char>>,
    pub candidates: Seq<CandidateView>,
    pub outcomes: Seq<Outcome>,
    pub failed: Seq<u128>,
    pub stage: Stage,
}

impl View for Delivery {
    type V = DeliveryView;

    open spec fn view(&self) -> DeliveryView {
        DeliveryView {
            id: self.id,
            ts: self.ts,
            via: self.via,
            source: opt_view(self.source),
            target: opt_view(self.target),
            content: self.content@,
            meta: members(self.meta),
            params: members(self.params),
            kind: self.kind@,
            sender_addr: opt_view(self.sender_addr),
            sender_session_id: opt_view(self.sender_session_id),
            candidates: candidate_views(self.candidates@),
            outcomes: self.outcomes@,
            failed: self.failed@,
            stage: self.stage,
        }
    }
}

impl DeliveryView {
    /// Candidates have outcomes in their order; the delivery is done once all
    /// have. A targeted session is probed at most three times, any other once.
    pub open spec fn wf(self) -> bool {
        let most: u32 = if self.target is Some {
            LIVENESS_PROBE_MAX_ATTEMPTS
        } else {
            1
        };
        &&& self.ts.wf()
        &&& self.outcomes.len() <= self.candidates.len()
        &&& self.outcomes.len() == self.candidates.len() <==> self.stage is Done
        &&& match self.stage {
            Stage::Probing { attempt, .. } => 1 <= attempt <= most,
            Stage::Waiting { attempt } => 1 <= attempt < most,
            _ => true,
        }
    }

    /// The label of the candidate at hand.
    pub open spec fn at_hand(self) -> Seq<char> {
        self.candidates[self.outcomes.len() as int].label
    }
}

// ---------------------------------------------------------------------------
// The start
// ---------------------------------------------------------------------------

/// The label that a target stands for. Aliases win over real labels.
pub open spec fn resolve(aliases: Map<Seq<char>, Seq<char>>, target: Seq<char>) -> Seq<char> {
    if aliases.contains_key(target) {
        aliases[target]
    } else {
        target
    }
}

/// The label that an optional target stands for.
pub open spec fn resolve_opt(
    aliases: Map<Seq<char>, Seq<char>>,
    target: Option<Seq<char>>,
) -> Option<Seq<char>> {
    match target {
        Some(t) => Some(resolve(aliases, t)),
        None => None,
    }
}

/// Whether a notification is meant for a session: all of them in a broadcast,
/// else those that wear the label.
pub open spec fn meant_for(s: SessionView, target: Option<Seq<char>>) -> bool {
    match target {
        Some(t) => wears(s, t),
        None => true,
    }
}

/// The candidates among the sessions, in the order of the registry.
pub open spec fn candidates_of(
    sessions: Seq<SessionView>,
    target: Option<Seq<char>>,
) -> Seq<CandidateView> {
    sessions.filter(|s: SessionView| meant_for(s, target)).map_values(
        |s: SessionView| CandidateView { id: s.id, label: shown_label(s.label) },
    )
}

/// The meta object that is sent: the caller's, with the sender, the time (in the
/// form of the log's) and the identifier of the message put over whatever stood under those keys.
pub open spec fn full_meta(
    meta: Map<Seq<char>, Seq<char>>,
    source: Option<Seq<char>>,
    ts: Timestamp,
    id: u128,
) -> Map<Seq<char>, Seq<char>> {
    let named = match source {
        Some(s) => meta.insert("source"@, json_quote(s)),
        None => meta,
    };
    named.insert("ts"@, json_quote(stamp_text(ts))).insert("id"@, json_quote(id_text(id)))
}

/// The parameters of the notification.
pub open spec fn notification_params(
    content: Seq<char>,
    meta: Map<Seq<char>, Seq<char>>,
) -> Map<Seq<char>, Seq<char>> {
    no_members().insert("content"@, json_quote(content)).insert("meta"@, object_text(meta))
}

/// The stage in which a candidate is first probed, or the end.
pub open spec fn stage_at(candidates: Seq<CandidateView>, i: nat) -> Stage {
    if i < candidates.len() {
        Stage::Probing { session: candidates[i as int].id, attempt: 1 }
    } else {
        Stage::Done
    }
}

/// The delivery of a payload as it begins.
pub open spec fn started(
    state: StateView,
    payload: PayloadView,
    ctx: ContextView,
    id: u128,
    ts: Timestamp,
) -> DeliveryView {
    let target = resolve_opt(state.aliases, payload.target);
    let meta = full_meta(payload.meta, payload.source, ts, id);
    let candidates = candidates_of(state.sessions, target);
    DeliveryView {
        id,
        ts,
        via: match ctx.via {
            Some(v) => v,
            None => Via::Notify,
        },
        source: payload.source,
        target,
        content: payload.content,
        meta,
        params: notification_params(payload.content, meta),
        kind: normal_kind(text_member(meta, "kind"@)),
        sender_addr: ctx.sender_addr,
        sender_session_id: ctx.sender_session_id,
        candidates,
        outcomes: Seq::empty(),
        failed: Seq::empty(),
        stage: stage_at(candidates, 0),
    }
}

/// Resolves a target through the aliases.
pub fn resolve_target(aliases: &StringHashMap<String>, target: &Option<String>) -> (r: Option<
    String,
>)
    ensures
        opt_view(r) == resolve_opt(string_map(*aliases), opt_view(*target)),
{
    match target {
        Some(t) => match aliases.get(t.as_str()) {
            Some(label) => Some(label.clone()),
            None => Some(t.clone()),
        },
        None => None,
    }
}

fn is_meant_for(s: &Session, target: &Option<String>) -> (r: bool)
    ensures
        r == meant_for(s@, opt_view(*target)),
{
    match target {
        Some(t) => is_labelled(s, t.as_str()),
        None => true,
    }
}

fn snapshot(sessions: &Vec<Session>, target: &Option<String>) -> (r: Vec<Candidate>)
    ensures
        candidate_views(r@) == candidates_of(session_views(sessions@), opt_view(*target)),
{
    let ghost all = session_views(sessions@);
    let ghost pick = |s: SessionView| meant_for(s, opt_view(*target));
    let ghost shown = |s: SessionView| CandidateView { id: s.id, label: shown_label(s.label) };
    let mut r: Vec<Candidate> = Vec::new();
    let mut i: usize = 0;
    proof {
        reveal(Seq::filter);
        assert(candidate_views(r@) =~= all.take(0).filter(pick).map_values(shown));
    }
    while i < sessions.len()
        invariant
            i <= sessions@.len(),
            all == session_views(sessions@),
            pick == (|s: SessionView| meant_for(s, opt_view(*target))),
            shown == (|s: SessionView| CandidateView { id: s.id, label: shown_label(s.label) }),
            candidate_views(r@) == all.take(i as int).filter(pick).map_values(shown),
        decreases sessions@.len() - i,
    {
        let ghost had = candidate_views(r@);
        proof {
            assert(all[i as int] == sessions@[i as int]@);
            assert(all.take(i + 1).drop_last() =~= all.take(i as int));
            reveal(Seq::filter);
        }
        if is_meant_for(&sessions[i], target) {
            r.push(
                Candidate {
                    id: sessions[i].id,
                    label: str_or(&sessions[i].label, "<unlabeled>").to_owned(),
                },
            );
            proof {
                assert(candidate_views(r@) =~= had.push(shown(all[i as int])));
                assert(candidate_views(r@) =~= all.take(i + 1).filter(pick).map_values(shown));
            }
        }
        i += 1;
    }
    proof {
        assert(all.take(i as int) =~= all);
    }
    r
}

fn inject(payload: &NotifyPayload, id: u128, ts: Timestamp) -> (r: Object)
    requires
        ts.wf(),
    ensures
        members(r) == full_meta(payload@.meta, payload@.source, ts, id),
        in_four_digit_years(ts.secs as int) ==> millis_form(stamp_text(ts)),
{
    let mut meta = match &payload.meta {
        Some(o) => copy_object(o),
        None => new_object(),
    };
    if let Some(source) = &payload.source {
        put(&mut meta, "source", Field::Text(source.clone()));
    }
    put(&mut meta, "ts", Field::Text(stamp(ts)));
    put(&mut meta, "id", Field::Text(id_string(id)));
    meta
}

fn kind_of(meta: &Object) -> (r: String)
    ensures
        r@ == normal_kind(text_member(members(*meta), "kind"@)),
{
    match get_text(meta, "kind") {
        Some(k) => normalise_kind(Some(k.as_str())),
        None => normalise_kind(None),
    }
}

fn first_stage(candidates: &Vec<Candidate>, i: usize) -> (r: Stage)
    ensures
        r == stage_at(candidate_views(candidates@), i as nat),
{
    if i < candidates.len() {
        Stage::Probing { session: candidates[i].id, attempt: 1 }
    } else {
        Stage::Done
    }
}

/// Begins the delivery of a payload under an identifier and a time.
pub fn begin_delivery(
    state: &SalonState,
    payload: &NotifyPayload,
    ctx: DeliveryContext,
    id: u128,
    ts: Timestamp,
) -> (r: Delivery)
    requires
        ts.wf(),
    ensures
        r@ == started(state@, payload@, ctx@, id, ts),
        r@.wf(),
        in_four_digit_years(ts.secs as int) ==> millis_form(stamp_text(ts)),
{
    let target = resolve_target(&state.aliases, &payload.target);
    let meta = inject(payload, id, ts);
    let kind = kind_of(&meta);
    let mut params = new_object();
    put(&mut params, "content", Field::Text(payload.content.clone()));
    put(&mut params, "meta", Field::Nested(copy_object(&meta)));
    let candidates = snapshot(&state.sessions, &target);
    let stage = first_stage(&candidates, 0);
    let r = Delivery {
        id,
        ts,
        via: match ctx.via {
            Some(v) => v,
            None => Via::Notify,
        },
        source: payload.source.clone(),
        target,
        content: payload.content.clone(),
        meta,
        params,
        kind,
        sender_addr: ctx.sender_addr,
        sender_session_id: ctx.sender_session_id,
        candidates,
        outcomes: Vec::new(),
        failed: Vec::new(),
        stage,
    };
    proof {
        assert(r@ =~= started(state@, payload@, ctx@, id, ts));
    }
    r
}

/// Begins the delivery of a payload now, under a new identifier.
///
/// - If `payload.target` is set, only sessions whose label equals it, aliases
///   resolved, receive the notification. They are probed with bounded retry
///   that looks the label up again between attempts, so that a session evicted
///   and replaced by a reconnect can still be reached.
/// - If `payload.target` is not set, every connected session receives it
///   (broadcast). Each candidate is probed once.
/// - A session whose probe ultimately fails is skipped for this message and
///   recorded under `delivery_errors`, but it stays registered: a transient
///   busy client must not be evicted on one missed probe. Only a session to
///   which the send itself fails is removed.
pub fn deliver_notification(state: &SalonState, payload: &NotifyPayload, ctx: DeliveryContext) -> (
r: Delivery)
    ensures
        is_v7(r.id),
        r@ == started(state@, payload@, ctx@, r.id, r.ts),
        r@.wf(),
        in_four_digit_years(r.ts.secs as int) ==> millis_form(stamp_text(r.ts)),
{
    let id = new_id();
    let ts = utc_now();
    begin_delivery(state, payload, ctx, id, ts)
}

// ---------------------------------------------------------------------------
// The steps
// ---------------------------------------------------------------------------

/// What is to be done in a stage.
pub open spec fn action_in(stage: Stage) -> Action {
    match stage {
        Stage::Probing { session, .. } => Action::Probe(session),
        Stage::Waiting { .. } => Action::Wait,
        Stage::Sending { session } => Action::Send(session),
        Stage::Done => Action::Finish,
    }
}

/// Whether a stage waits for a report.
pub open spec fn awaits(stage: Stage, report: ReportView) -> bool {
    match report {
        ReportView::Probed(_) => stage is Probing,
        ReportView::Waited => stage is Waiting,
        ReportView::Sent => stage is Sending,
        ReportView::SendFailed(_) => stage is Sending,
    }
}

/// The first session that wears a label.
pub open spec fn owner(sessions: Seq<SessionView>, label: Seq<char>) -> Option<u128>
    decreases sessions.len(),
{
    if sessions.len() == 0 {
        None
    } else if wears(sessions[0], label) {
        Some(sessions[0].id)
    } else {
        owner(sessions.skip(1), label)
    }
}

/// No effects.
pub open spec fn no_effects() -> EffectsView {
    EffectsView { metrics: Seq::empty(), events: Seq::empty() }
}

/// The fields of a `delivery_skipped` event.
pub open spec fn skipped_fields(target: Seq<char>, attempts: nat, id: u128) -> Map<
    Seq<char>,
    Seq<char>,
> {
    no_members().insert("target"@, json_quote(target)).insert(
        "reason"@,
        json_quote("liveness_timeout"@),
    ).insert("attempts"@, decimal(attempts)).insert("message_id"@, json_quote(id_text(id)))
}

/// The fields of a `send_failed` event.
pub open spec fn failed_fields(target: Seq<char>, error: Seq<char>, id: u128) -> Map<
    Seq<char>,
    Seq<char>,
> {
    no_members().insert("target"@, json_quote(target)).insert("error"@, json_quote(error)).insert(
        "message_id"@,
        json_quote(id_text(id)),
    )
}

/// The label of a receiver in the metrics.
pub open spec fn metric_target(target: Option<Seq<char>>) -> Seq<char> {
    match target {
        Some(t) => t,
        None => "<broadcast>"@,
    }
}

impl DeliveryView {
    /// The candidate at hand has an outcome; the next one is at hand.
    pub open spec fn settled(self, outcome: Outcome) -> DeliveryView {
        DeliveryView {
            outcomes: self.outcomes.push(outcome),
            stage: stage_at(self.candidates, self.outcomes.len() + 1),
            ..self
        }
    }

    /// What it comes to when the candidate at hand is given up after some
    /// attempts.
    pub open spec fn given_up(self, attempts: u32) -> (DeliveryView, EffectsView) {
        (
            self.settled(Outcome::Skipped),
            EffectsView {
                metrics: seq![
                    UpdateView::Liveness {
                        target: self.at_hand(),
                        result: "timeout"@,
                        attempt: decimal(attempts as nat),
                    },
                    UpdateView::SendFailure { reason: "liveness_timeout"@ },
                ],
                events: seq![
                    EventView {
                        event: "delivery_skipped"@,
                        fields: skipped_fields(self.at_hand(), attempts as nat, self.id),
                    },
                ],
            },
        )
    }

    /// A probe of a session came to an end.
    pub open spec fn after_probe(self, session: u128, attempt: u32, alive: bool) -> (
        DeliveryView,
        EffectsView,
    ) {
        if alive {
            (
                DeliveryView { stage: Stage::Sending { session }, ..self },
                EffectsView {
                    metrics: seq![
                        UpdateView::Liveness {
                            target: self.at_hand(),
                            result: "ok"@,
                            attempt: decimal(attempt as nat),
                        },
                    ],
                    events: Seq::empty(),
                },
            )
        } else if self.target is Some && attempt < LIVENESS_PROBE_MAX_ATTEMPTS {
            (DeliveryView { stage: Stage::Waiting { attempt }, ..self }, no_effects())
        } else {
            self.given_up(attempt)
        }
    }

    /// The pause after an attempt is over: whoever holds the label by now is
    /// probed next.
    pub open spec fn after_pause(self, sessions: Seq<SessionView>, attempt: u32) -> (
        DeliveryView,
        EffectsView,
    ) {
        match owner(sessions, self.target->Some_0) {
            Some(session) => (
                DeliveryView {
                    stage: Stage::Probing { session, attempt: (attempt + 1) as u32 },
                    ..self
                },
                no_effects(),
            ),
            None => self.given_up(attempt),
        }
    }

    /// The send to a session came to an end, with an error or without. The
    /// session to which it failed is to be removed, be it the candidate of the
    /// start or the one that took over its label.
    pub open spec fn after_send(self, session: u128, error: Option<Seq<char>>) -> (
        DeliveryView,
        EffectsView,
    ) {
        match error {
            None => (
                self.settled(Outcome::Delivered),
                EffectsView {
                    metrics: seq![
                        UpdateView::Message {
                            source: match self.source {
                                Some(s) => s,
                                None => Seq::empty(),
                            },
                            target: metric_target(self.target),
                            kind: self.kind,
                        },
                    ],
                    events: Seq::empty(),
                },
            ),
            Some(e) => (
                DeliveryView {
                    failed: self.failed.push(session),
                    ..self.settled(Outcome::Failed)
                },
                EffectsView {
                    metrics: seq![UpdateView::SendFailure { reason: "delivery_error"@ }],
                    events: seq![
                        EventView {
                            event: "send_failed"@,
                            fields: failed_fields(self.at_hand(), e, self.id),
                        },
                    ],
                },
            ),
        }
    }

    /// The delivery after a report, with the sessions that are registered then,
    /// and the effects of the report. A report that nobody waits for changes
    /// nothing.
    pub open spec fn step(self, sessions: Seq<SessionView>, report: ReportView) -> (
        DeliveryView,
        EffectsView,
    ) {
        match (self.stage, report) {
            (Stage::Probing { session, attempt }, ReportView::Probed(alive)) => self.after_probe(
                session,
                attempt,
                alive,
            ),
            (Stage::Waiting { attempt }, ReportView::Waited) => self.after_pause(sessions, attempt),
            (Stage::Sending { session }, ReportView::Sent) => self.after_send(session, None),
            (Stage::Sending { session }, ReportView::SendFailed(e)) => self.after_send(
                session,
                Some(e),
            ),
            _ => (self, no_effects()),
        }
    }
}

fn find_owner(sessions: &Vec<Session>, label: &str) -> (r: Option<u128>)
    ensures
        r == owner(session_views(sessions@), label@),
{
    let ghost all = session_views(sessions@);
    let mut i: usize = 0;
    proof {
        assert(all.skip(0) =~= all);
    }
    while i < sessions.len()
        invariant
            i <= sessions@.len(),
            all == session_views(sessions@),
            owner(all, label@) == owner(all.skip(i as int), label@),
        decreases sessions@.len() - i,
    {
        proof {
            assert(all.skip(i as int)[0] == sessions@[i as int]@);
            assert(all.skip(i as int).skip(1) =~= all.skip(i + 1));
        }
        if is_labelled(&sessions[i], label) {
            return Some(sessions[i].id);
        }
        i += 1;
    }
    None
}

fn nothing() -> (r: Effects)
    ensures
        r@ == no_effects(),
{
    let r = Effects { metrics: Vec::new(), events: Vec::new() };
    proof {
        assert(r@ =~= no_effects());
    }
    r
}

impl Delivery {
    /// What is to be done next.
    pub fn next_action(&self) -> (r: Action)
        ensures
            r == action_in(self@.stage),
    {
        match self.stage {
            Stage::Probing { session, .. } => Action::Probe(session),
            Stage::Waiting { .. } => Action::Wait,
            Stage::Sending { session } => Action::Send(session),
            Stage::Done => Action::Finish,
        }
    }

    fn settle(&mut self, outcome: Outcome)
        requires
            old(self)@.wf(),
            !(old(self)@.stage is Done),
        ensures
            final(self)@ == old(self)@.settled(outcome),
            final(self)@.wf(),
    {
        self.outcomes.push(outcome);
        self.stage = first_stage(&self.candidates, self.outcomes.len());
    }

    fn label_at_hand(&self) -> (r: &str)
        requires
            self@.wf(),
            !(self@.stage is Done),
        ensures
            r@ == self@.at_hand(),
    {
        let i = self.outcomes.len();
        proof {
            assert(self@.candidates[i as int] == self.candidates@[i as int]@);
        }
        self.candidates[i].label.as_str()
    }

    fn give_up(&mut self, attempts: u32) -> (r: Effects)
        requires
            old(self)@.wf(),
            !(old(self)@.stage is Done),
        ensures
            (final(self)@, r@) == old(self)@.given_up(attempts),
            final(self)@.wf(),
    {
        let label = self.label_at_hand().to_owned();
        let mut fields = new_object();
        put(&mut fields, "target", Field::Text(label.clone()));
        put(&mut fields, "reason", Field::Text("liveness_timeout".to_owned()));
        put(&mut fields, "attempts", Field::Count(attempts as u64));
        put(&mut fields, "message_id", Field::Text(id_string(self.id)));
        let r = Effects {
            metrics: vec![
                liveness_update(label.as_str(), false, attempts),
                failure_update("liveness_timeout"),
            ],
            events: vec![LogEvent { event: "delivery_skipped", fields }],
        };
        self.settle(Outcome::Skipped);
        proof {
            assert(r@ =~= old(self)@.given_up(attempts).1);
        }
        r
    }

    fn take_probe(&mut self, session: u128, attempt: u32, alive: bool) -> (r: Effects)
        requires
            old(self)@.wf(),
            old(self)@.stage == (Stage::Probing { session, attempt }),
        ensures
            (final(self)@, r@) == old(self)@.after_probe(session, attempt, alive),
            final(self)@.wf(),
    {
        if alive {
            let r = Effects {
                metrics: vec![liveness_update(self.label_at_hand(), true, attempt)],
                events: Vec::new(),
            };
            self.stage = Stage::Sending { session };
            proof {
                assert(r@ =~= old(self)@.after_probe(session, attempt, alive).1);
            }
            r
        } else if self.target.is_some() && attempt < LIVENESS_PROBE_MAX_ATTEMPTS {
            self.stage = Stage::Waiting { attempt };
            nothing()
        } else {
            self.give_up(attempt)
        }
    }

    fn take_pause(&mut self, sessions: &Vec<Session>, attempt: u32) -> (r: Effects)
        requires
            old(self)@.wf(),
            old(self)@.stage == (Stage::Waiting { attempt }),
        ensures
            (final(self)@, r@) == old(self)@.after_pause(session_views(sessions@), attempt),
            final(self)@.wf(),
    {
        let found = match &self.target {
            Some(t) => find_owner(sessions, t.as_str()),
            None => None,
        };
        match found {
            Some(session) => {
                self.stage = Stage::Probing { session, attempt: attempt + 1 };
                nothing()
            },
            None => self.give_up(attempt),
        }
    }

    fn take_sent(&mut self, session: u128) -> (r: Effects)
        requires
            old(self)@.wf(),
            old(self)@.stage == (Stage::Sending { session }),
        ensures
            (final(self)@, r@) == old(self)@.after_send(session, None),
            final(self)@.wf(),
    {
        let source = match &self.source {
            Some(s) => s.clone(),
            None => String::new(),
        };
        let r = Effects {
            metrics: vec![
                MetricUpdate::Message(
                    MessageLabels {
                        source,
                        target: str_or(&self.target, "<broadcast>").to_owned(),
                        kind: self.kind.clone(),
                    },
                ),
            ],
            events: Vec::new(),
        };
        self.settle(Outcome::Delivered);
        proof {
            assert(r@ =~= old(self)@.after_send(session, None).1);
        }
        r
    }

    fn take_failure(&mut self, session: u128, error: String) -> (r: Effects)
        requires
            old(self)@.wf(),
            old(self)@.stage == (Stage::Sending { session }),
        ensures
            (final(self)@, r@) == old(self)@.after_send(session, Some(error@)),
            final(self)@.wf(),
    {
        let mut fields = new_object();
        put(&mut fields, "target", Field::Text(self.label_at_hand().to_owned()));
        put(&mut fields, "error", Field::Text(error));
        put(&mut fields, "message_id", Field::Text(id_string(self.id)));
        let r = Effects {
            metrics: vec![failure_update("delivery_error")],
            events: vec![LogEvent { event: "send_failed", fields }],
        };
        self.settle(Outcome::Failed);
        self.failed.push(session);
        proof {
            assert(r@ =~= old(self)@.after_send(session, Some(error@)).1);
        }
        r
    }

    /// Takes in what came of the last action, with the state of the salon by
    /// then, and moves on.
    pub fn step(&mut self, state: &SalonState, report: Report) -> (r: Effects)
        requires
            old(self)@.wf(),
        ensures
            (final(self)@, r@) == old(self)@.step(state@.sessions, report@),
            final(self)@.wf(),
    {
        match (self.stage, report) {
            (Stage::Probing { session, attempt }, Report::Probed(alive)) => self.take_probe(
                session,
                attempt,
                alive,
            ),
            (Stage::Waiting { attempt }, Report::Waited) => self.take_pause(
                &state.sessions,
                attempt,
            ),
            (Stage::Sending { session }, Report::Sent) => self.take_sent(session),
            (Stage::Sending { session }, Report::SendFailed(e)) => self.take_failure(session, e),
            _ => nothing(),
        }
    }
}

// ---------------------------------------------------------------------------
// The end
// ---------------------------------------------------------------------------

/// The labels of the candidates that the notification was delivered to, or of
/// those that it was not, in order.
pub open spec fn labels_where(
    candidates: Seq<CandidateView>,
    outcomes: Seq<Outcome>,
    delivered: bool,
) -> Seq<Seq<char>>
    decreases outcomes.len(),
{
    if outcomes.len() == 0 {
        Seq::empty()
    } else {
        let rest = labels_where(candidates, outcomes.drop_last(), delivered);
        if (outcomes.last() == Outcome::Delivered) == delivered {
            rest.push(candidates[outcomes.len() - 1].label)
        } else {
            rest
        }
    }
}

impl DeliveryView {
    /// Who received the notification.
    pub open spec fn delivered_to(self) -> Seq<Seq<char>> {
        labels_where(self.candidates, self.outcomes, true)
    }

    /// Whom it did not reach.
    pub open spec fn delivery_errors(self) -> Seq<Seq<char>> {
        labels_where(self.candidates, self.outcomes, false)
    }

    /// The row that is stored of the delivery.
    pub open spec fn row(self) -> MessageView {
        MessageView {
            id: self.id,
            ts: self.ts,
            via: self.via,
            source: match self.source {
                Some(s) => s,
                None => Seq::empty(),
            },
            target: self.target,
            content: self.content,
            meta: object_text(self.meta),
            delivered_to: self.delivered_to(),
            delivery_errors: self.delivery_errors(),
            sender_addr: self.sender_addr,
            sender_session_id: self.sender_session_id,
        }
    }

    /// The registry after the delivery: without the sessions to which the send
    /// failed.
    pub open spec fn sessions_after(self, sessions: Seq<SessionView>) -> Seq<SessionView> {
        without_ids(sessions, self.failed)
    }

    /// Whether a targeted notification found nobody. A broadcast that reaches
    /// nobody is no failure.
    pub open spec fn target_unknown(self) -> bool {
        self.target is Some && self.delivered_to().len() == 0 && self.delivery_errors().len() == 0
    }

    /// The effects of the end, with so many sessions left.
    pub open spec fn end_effects(self, active: nat) -> EffectsView {
        EffectsView {
            metrics: if self.target_unknown() {
                seq![
                    UpdateView::SendFailure { reason: "target_unknown"@ },
                    UpdateView::ActiveSessions { count: active },
                ]
            } else {
                seq![UpdateView::ActiveSessions { count: active }]
            },
            events: Seq::empty(),
        }
    }
}

/// What a delivery has come to.
pub struct Finished {
    /// The row to store and to log.
    pub row: MessageRow,
    pub effects: Effects,
}

fn select_labels(candidates: &Vec<Candidate>, outcomes: &Vec<Outcome>, delivered: bool) -> (r: Vec<
    String,
>)
    requires
        outcomes@.len() <= candidates@.len(),
    ensures
        views(r@) == labels_where(candidate_views(candidates@), outcomes@, delivered),
{
    let ghost cs = candidate_views(candidates@);
    let mut r: Vec<String> = Vec::new();
    let mut i: usize = 0;
    proof {
        assert(views(r@) =~= labels_where(cs, outcomes@.take(0), delivered));
    }
    while i < outcomes.len()
        invariant
            i <= outcomes@.len() <= candidates@.len(),
            cs == candidate_views(candidates@),
            views(r@) == labels_where(cs, outcomes@.take(i as int), delivered),
        decreases outcomes@.len() - i,
    {
        let ghost had = views(r@);
        proof {
            assert(outcomes@.take(i + 1).drop_last() =~= outcomes@.take(i as int));
            assert(cs[i as int] == candidates@[i as int]@);
        }
        if (outcomes[i] == Outcome::Delivered) == delivered {
            r.push(candidates[i].label.clone());
            proof {
                assert(views(r@) =~= had.push(cs[i as int].label));
            }
        }
        i += 1;
    }
    proof {
        assert(outcomes@.take(i as int) =~= outcomes@);
    }
    r
}

impl Delivery {
    /// Finishes a delivery in which every candidate has an outcome: removes the
    /// sessions to which the send failed, by their identifiers, so that another
    /// session that has taken over a label in the meantime stays.
    pub fn finish(self, state: &mut SalonState) -> (r: Finished)
        requires
            self@.wf(),
            self@.stage is Done,
        ensures
            final(state)@ == (StateView {
                sessions: self@.sessions_after(old(state)@.sessions),
                ..old(state)@
            }),
            r.row@ == self@.row(),
            r.row.ts.wf(),
            r.effects@ == self@.end_effects(final(state)@.sessions.len()),
            old(state)@.wf() ==> final(state)@.wf(),
    {
        let delivered_to = select_labels(&self.candidates, &self.outcomes, true);
        let delivery_errors = select_labels(&self.candidates, &self.outcomes, false);
        remove_ids(&mut state.sessions, &self.failed);
        let active = state.sessions.len();
        proof {
            assert(views(delivered_to@).len() == delivered_to@.len());
            assert(views(delivery_errors@).len() == delivery_errors@.len());
            assert(state@.sessions.len() == active);
            if old(state)@.wf() {
                law_eviction_keeps_owners(old(state)@.sessions, self.failed@);
            }
        }
        let metrics = if self.target.is_some() && delivered_to.len() == 0 && delivery_errors.len()
            == 0 {
            vec![failure_update("target_unknown"), MetricUpdate::ActiveSessions(active as u64)]
        } else {
            vec![MetricUpdate::ActiveSessions(active as u64)]
        };
        let effects = Effects { metrics, events: Vec::new() };
        proof {
            assert(effects@ =~= self@.end_effects(active as nat));
        }
        let source = match self.source {
            Some(s) => s,
            None => String::new(),
        };
        let row = MessageRow {
            id: self.id,
            ts: self.ts,
            via: self.via,
            source,
            target: self.target,
            content: self.content,
            meta: object_value(self.meta),
            delivered_to,
            delivery_errors,
            sender_addr: self.sender_addr,
            sender_session_id: self.sender_session_id,
        };
        proof {
            assert(row@ =~= self@.row());
        }
        Finished { row, effects }
    }
}

/// The change of the metrics once a row has been stored, or could not be.
pub fn stored_updates(stored: bool) -> (r: Vec<MetricUpdate>)
    ensures
        update_views(r@) == if stored {
            seq![UpdateView::MessageStored]
        } else {
            Seq::empty()
        },
{
    let r: Vec<MetricUpdate> = if stored {
        vec![MetricUpdate::MessageStored]
    } else {
        Vec::new()
    };
    proof {
        assert(update_views(r@) =~= if stored {
            seq![UpdateView::MessageStored]
        } else {
            Seq::empty()
        });
    }
    r
}

// ---------------------------------------------------------------------------
// Laws
// ---------------------------------------------------------------------------

/// A sender cannot pass for another: whatever the caller's meta object says,
/// the receiver sees the label that the transport declared, and the time and
/// the identifier of this very message.
pub proof fn law_identity_is_injected(
    meta: Map<Seq<char>, Seq<char>>,
    source: Seq<char>,
    ts: Timestamp,
    id: u128,
)
    ensures
        text_member(full_meta(meta, Some(source), ts, id), "source"@) == Some(source),
        text_member(full_meta(meta, Some(source), ts, id), "ts"@) == Some(stamp_text(ts)),
        text_member(full_meta(meta, Some(source), ts, id), "id"@) == Some(id_text(id)),
{
    lemma_keys_differ();
    lemma_json_quote(source);
    lemma_json_quote(stamp_text(ts));
    lemma_json_quote(id_text(id));
}

proof fn lemma_keys_differ()
    ensures
        "source"@ != "ts"@,
        "source"@ != "id"@,
        "ts"@ != "id"@,
{
    reveal_strlit("source");
    reveal_strlit("ts");
    reveal_strlit("id");
    assert("source"@.len() == 6);
    assert("ts"@.len() == 2);
    assert("id"@.len() == 2);
    assert("ts"@[0] != "id"@[0]);
}

/// Every other key of the caller's meta object passes through unchanged.
pub proof fn law_other_meta_passes_through(
    meta: Map<Seq<char>, Seq<char>>,
    source: Option<Seq<char>>,
    ts: Timestamp,
    id: u128,
    key: Seq<char>,
)
    requires
        key != "source"@,
        key != "ts"@,
        key != "id"@,
    ensures
        full_meta(meta, source, ts, id).contains_key(key) <==> meta.contains_key(key),
        meta.contains_key(key) ==> full_meta(meta, source, ts, id)[key] == meta[key],
{
}

/// A targeted notification is meant for a session if and only if it wears the
/// label; sessions without a label are never meant.
pub proof fn law_target_selects_the_label(
    sessions: Seq<SessionView>,
    target: Seq<char>,
    c: CandidateView,
)
    ensures
        candidates_of(sessions, Some(target)).contains(c) <==> c.label == target
            && sessions.contains(SessionView { id: c.id, label: Some(target) }),
    decreases sessions.len(),
{
    reveal(Seq::filter);
    let cs = candidates_of(sessions, Some(target));
    let pick = |s: SessionView| meant_for(s, Some(target));
    let shown = |s: SessionView| CandidateView { id: s.id, label: shown_label(s.label) };
    let s = SessionView { id: c.id, label: Some(target) };
    if sessions.len() == 0 {
        assert(sessions.filter(pick).len() == 0);
    } else {
        let rest = sessions.drop_last();
        let last = sessions.last();
        law_target_selects_the_label(rest, target, c);
        let head = candidates_of(rest, Some(target));
        if pick(last) {
            assert(cs =~= head.push(shown(last)));
            assert(head.push(shown(last)).last() == shown(last));
        } else {
            assert(cs =~= head);
        }
        if cs.contains(c) {
            let k = choose|k: int| 0 <= k < cs.len() && cs[k] == c;
            if k < head.len() {
                assert(head[k] == c);
                let j = choose|j: int| 0 <= j < rest.len() && rest[j] == s;
                assert(sessions[j] == s);
            } else {
                assert(last =~= s);
                assert(sessions[sessions.len() - 1] == s);
            }
        }
        if c.label == target && sessions.contains(s) {
            let j = choose|j: int| 0 <= j < sessions.len() && sessions[j] == s;
            if j < rest.len() {
                assert(rest[j] == s);
                let k = choose|k: int| 0 <= k < head.len() && head[k] == c;
                assert(cs[k] == c);
            } else {
                assert(shown(last) =~= c);
                assert(cs[cs.len() - 1] == c);
            }
        }
    }
}

/// Where no two sessions wear one label, a targeted notification is meant for
/// one session at most.
pub proof fn law_target_selects_one(sessions: Seq<SessionView>, target: Seq<char>)
    requires
        one_owner(sessions),
    ensures
        candidates_of(sessions, Some(target)).len() <= 1,
    decreases sessions.len(),
{
    reveal(Seq::filter);
    let pick = |s: SessionView| meant_for(s, Some(target));
    if sessions.len() > 0 {
        let rest = sessions.drop_last();
        assert forall|i: int, j: int|
            0 <= i < j < rest.len() && (#[trigger] rest[i]).label is Some implies rest[i].label != (
        #[trigger] rest[j]).label by {
            assert(rest[i] == sessions[i] && rest[j] == sessions[j]);
        }
        law_target_selects_one(rest, target);
        if pick(sessions.last()) {
            assert forall|i: int| 0 <= i < rest.len() implies !pick(#[trigger] rest[i]) by {
                assert(rest[i] == sessions[i]);
                assert(sessions[sessions.len() - 1] == sessions.last());
            }
            lemma_filter_none(rest, pick);
        }
    }
}

proof fn lemma_filter_none(sessions: Seq<SessionView>, pick: spec_fn(SessionView) -> bool)
    requires
        forall|i: int| 0 <= i < sessions.len() ==> !pick(#[trigger] sessions[i]),
    ensures
        sessions.filter(pick).len() == 0,
    decreases sessions.len(),
{
    reveal(Seq::filter);
    if sessions.len() > 0 {
        lemma_filter_none(sessions.drop_last(), pick);
    }
}

/// A broadcast is meant for every session, with or without a label.
pub proof fn law_broadcast_selects_all(sessions: Seq<SessionView>)
    ensures
        candidates_of(sessions, None) == sessions.map_values(
            |s: SessionView| CandidateView { id: s.id, label: shown_label(s.label) },
        ),
    decreases sessions.len(),
{
    reveal(Seq::filter);
    let pick = |s: SessionView| meant_for(s, None);
    let shown = |s: SessionView| CandidateView { id: s.id, label: shown_label(s.label) };
    if sessions.len() > 0 {
        let rest = sessions.drop_last();
        law_broadcast_selects_all(rest);
        assert(candidates_of(sessions, None) =~= candidates_of(rest, None).push(
            shown(sessions.last()),
        ));
        assert(sessions.map_values(shown) =~= rest.map_values(shown).push(shown(sessions.last())));
    } else {
        assert(candidates_of(sessions, None) =~= sessions.map_values(shown));
    }
}

/// An alias wins over a real label of the same name, and what is neither
/// rewritten nor known stays as it is.
pub proof fn law_aliases_win(aliases: Map<Seq<char>, Seq<char>>, target: Seq<char>)
    ensures
        aliases.contains_key(target) ==> resolve(aliases, target) == aliases[target],
        !aliases.contains_key(target) ==> resolve(aliases, target) == target,
{
}

/// The delivery after a run of reports, each with the sessions registered then.
pub open spec fn run(
    d: DeliveryView,
    trace: Seq<(Seq<SessionView>, ReportView)>,
) -> DeliveryView
    decreases trace.len(),
{
    if trace.len() == 0 {
        d
    } else {
        run(d, trace.drop_last()).step(trace.last().0, trace.last().1).0
    }
}

/// How many reports a delivery can still take in, at most.
pub open spec fn steps_left(d: DeliveryView) -> int {
    let here: int = match d.stage {
        Stage::Probing { attempt, .. } => 2 * (LIVENESS_PROBE_MAX_ATTEMPTS - attempt) + 2,
        Stage::Waiting { attempt } => 2 * (LIVENESS_PROBE_MAX_ATTEMPTS - attempt) + 1,
        Stage::Sending { .. } => 1,
        Stage::Done => 0,
    };
    if d.stage is Done {
        0
    } else {
        6 * (d.candidates.len() - d.outcomes.len() - 1) + here
    }
}

/// Every report that a delivery waits for brings it closer to its end, whatever
/// the report says and whoever is registered by then.
pub proof fn law_every_report_makes_progress(
    d: DeliveryView,
    sessions: Seq<SessionView>,
    report: ReportView,
)
    requires
        d.wf(),
        awaits(d.stage, report),
    ensures
        d.step(sessions, report).0.wf(),
        0 <= steps_left(d.step(sessions, report).0) < steps_left(d),
{
}

/// Whether each report of a run is one that is waited for.
pub open spec fn awaited(d: DeliveryView, trace: Seq<(Seq<SessionView>, ReportView)>) -> bool {
    forall|i: int|
        0 <= i < trace.len() ==> awaits(run(d, trace.take(i)).stage, (#[trigger] trace[i]).1)
}

/// A delivery ends: no run of awaited reports is longer than six times the
/// number of candidates.
pub proof fn law_every_run_ends(
    state: StateView,
    payload: PayloadView,
    ctx: ContextView,
    id: u128,
    ts: Timestamp,
    trace: Seq<(Seq<SessionView>, ReportView)>,
)
    requires
        ts.wf(),
        awaited(started(state, payload, ctx, id, ts), trace),
    ensures
        trace.len() <= 6 * started(state, payload, ctx, id, ts).candidates.len(),
{
    let d = started(state, payload, ctx, id, ts);
    lemma_run_is_bounded(d, trace);
}

proof fn lemma_run_is_bounded(d: DeliveryView, trace: Seq<(Seq<SessionView>, ReportView)>)
    requires
        d.wf(),
        awaited(d, trace),
    ensures
        run(d, trace).wf(),
        0 <= steps_left(run(d, trace)) <= steps_left(d) - trace.len(),
    decreases trace.len(),
{
    if trace.len() > 0 {
        let n = trace.len() - 1;
        let head = trace.drop_last();
        assert(head =~= trace.take(n));
        assert forall|i: int| 0 <= i < head.len() implies awaits(
            run(d, head.take(i)).stage,
            (#[trigger] head[i]).1,
        ) by {
            assert(head.take(i) =~= trace.take(i));
            assert(head[i] == trace[i]);
        }
        lemma_run_is_bounded(d, head);
        assert(awaits(run(d, trace.take(n)).stage, trace[n].1));
        law_every_report_makes_progress(run(d, head), trace.last().0, trace.last().1);
    }
}

/// The message does not change while it is delivered, and neither do its
/// candidates: who joins later gets it only in place of a candidate.
pub proof fn law_message_stays(d: DeliveryView, trace: Seq<(Seq<SessionView>, ReportView)>)
    ensures
        run(d, trace) == (DeliveryView {
            outcomes: run(d, trace).outcomes,
            failed: run(d, trace).failed,
            stage: run(d, trace).stage,
            ..d
        }),
    decreases trace.len(),
{
    if trace.len() > 0 {
        law_message_stays(d, trace.drop_last());
    }
}

/// The stored row tells what was asked for, whatever happens on the way: the
/// receiver's real label, never the alias; the sender as the transport declared
/// it; and the meta object that was sent.
pub proof fn law_row_tells_the_request(
    state: StateView,
    payload: PayloadView,
    ctx: ContextView,
    id: u128,
    ts: Timestamp,
    trace: Seq<(Seq<SessionView>, ReportView)>,
)
    requires
        payload.source is Some,
    ensures
        run(started(state, payload, ctx, id, ts), trace).row().target == resolve_opt(
            state.aliases,
            payload.target,
        ),
        run(started(state, payload, ctx, id, ts), trace).row().source == payload.source->Some_0,
        run(started(state, payload, ctx, id, ts), trace).row().content == payload.content,
        run(started(state, payload, ctx, id, ts), trace).row().meta == object_text(
            full_meta(payload.meta, payload.source, ts, id),
        ),
{
    law_message_stays(started(state, payload, ctx, id, ts), trace);
}

/// Each candidate ends in exactly one of the two lists: they are together as
/// long as the candidates, and each candidate's label stands in the one that
/// its outcome calls for.
pub proof fn law_each_candidate_is_accounted_for(
    candidates: Seq<CandidateView>,
    outcomes: Seq<Outcome>,
    i: int,
)
    requires
        outcomes.len() == candidates.len(),
        0 <= i < candidates.len(),
    ensures
        labels_where(candidates, outcomes, true).len() + labels_where(
            candidates,
            outcomes,
            false,
        ).len() == candidates.len(),
        labels_where(candidates, outcomes, outcomes[i] == Outcome::Delivered).contains(
            candidates[i].label,
        ),
{
    lemma_labels_len(candidates, outcomes);
    lemma_label_listed(candidates, outcomes, i);
}

proof fn lemma_labels_len(candidates: Seq<CandidateView>, outcomes: Seq<Outcome>)
    ensures
        labels_where(candidates, outcomes, true).len() + labels_where(
            candidates,
            outcomes,
            false,
        ).len() == outcomes.len(),
    decreases outcomes.len(),
{
    if outcomes.len() > 0 {
        lemma_labels_len(candidates, outcomes.drop_last());
    }
}

proof fn lemma_label_listed(candidates: Seq<CandidateView>, outcomes: Seq<Outcome>, i: int)
    requires
        0 <= i < outcomes.len(),
    ensures
        labels_where(candidates, outcomes, outcomes[i] == Outcome::Delivered).contains(
            candidates[i].label,
        ),
    decreases outcomes.len(),
{
    let delivered = outcomes[i] == Outcome::Delivered;
    let all = labels_where(candidates, outcomes, delivered);
    if i == outcomes.len() - 1 {
        assert(all[all.len() - 1] == candidates[i].label);
    } else {
        let rest = labels_where(candidates, outcomes.drop_last(), delivered);
        assert(outcomes.drop_last()[i] == outcomes[i]);
        lemma_label_listed(candidates, outcomes.drop_last(), i);
        let k = choose|k: int| 0 <= k < rest.len() && rest[k] == candidates[i].label;
        assert(all[k] == candidates[i].label);
    }
}

/// Whether a report of a run is that the send to a session failed.
pub open spec fn send_failed_at(
    d: DeliveryView,
    trace: Seq<(Seq<SessionView>, ReportView)>,
    i: int,
    session: u128,
) -> bool {
    &&& 0 <= i < trace.len()
    &&& trace[i].1 is SendFailed
    &&& run(d, trace.take(i)).stage == (Stage::Sending { session })
}

/// Only a failed send removes a session, and it removes that very session: a
/// registered session leaves at the end of a delivery if and only if a send to
/// it failed, whoever was the candidate at the start.
pub proof fn law_only_failed_sends_evict(
    state: StateView,
    payload: PayloadView,
    ctx: ContextView,
    id: u128,
    ts: Timestamp,
    trace: Seq<(Seq<SessionView>, ReportView)>,
    sessions: Seq<SessionView>,
    s: SessionView,
)
    requires
        sessions.contains(s),
    ensures
        !run(started(state, payload, ctx, id, ts), trace).sessions_after(sessions).contains(s)
            <==> exists|i: int| #[trigger]
            send_failed_at(started(state, payload, ctx, id, ts), trace, i, s.id),
{
    let d = started(state, payload, ctx, id, ts);
    law_eviction_is_exact(sessions, run(d, trace).failed, s);
    lemma_failed_sends(d, trace, s.id);
}

proof fn lemma_failed_sends(
    d: DeliveryView,
    trace: Seq<(Seq<SessionView>, ReportView)>,
    session: u128,
)
    requires
        d.failed.len() == 0,
    ensures
        run(d, trace).failed.contains(session) <==> exists|i: int| #[trigger]
            send_failed_at(d, trace, i, session),
    decreases trace.len(),
{
    if trace.len() > 0 {
        let head = trace.drop_last();
        let n = trace.len() - 1;
        let before = run(d, head);
        let after = run(d, trace);
        lemma_failed_sends(d, head, session);
        assert(head =~= trace.take(n));
        assert forall|i: int| 0 <= i < n implies (#[trigger] send_failed_at(d, trace, i, session)
            <==> send_failed_at(d, head, i, session)) by {
            assert(head.take(i) =~= trace.take(i));
        }
        if before.failed.contains(session) {
            let i = choose|i: int| #[trigger] send_failed_at(d, head, i, session);
            assert(send_failed_at(d, trace, i, session));
            let k = choose|k: int| 0 <= k < before.failed.len() && before.failed[k] == session;
            assert(after.failed[k] == session);
        }
        if send_failed_at(d, trace, n, session) {
            assert(after.failed[after.failed.len() - 1] == session);
        }
        if after.failed.contains(session) && !before.failed.contains(session) {
            let k = choose|k: int| 0 <= k < after.failed.len() && after.failed[k] == session;
            if k < before.failed.len() {
                assert(before.failed[k] == session);
            }
            assert(send_failed_at(d, trace, n, session));
        }
        if exists|i: int| #[trigger] send_failed_at(d, trace, i, session) {
            let i = choose|i: int| #[trigger] send_failed_at(d, trace, i, session);
            if i < n {
                assert(send_failed_at(d, head, i, session));
            }
        }
    }
}

/// A retry goes to a session that wears the label by then, or to nobody if no
/// session does.
pub proof fn law_retry_finds_the_owner(sessions: Seq<SessionView>, label: Seq<char>)
    ensures
        match owner(sessions, label) {
            Some(id) => sessions.contains(SessionView { id, label: Some(label) }),
            None => forall|i: int| 0 <= i < sessions.len() ==> !wears(#[trigger] sessions[i], label),
        },
    decreases sessions.len(),
{
    if sessions.len() > 0 {
        if wears(sessions[0], label) {
            assert(sessions[0] =~= (SessionView { id: sessions[0].id, label: Some(label) }));
        } else {
            let rest = sessions.skip(1);
            law_retry_finds_the_owner(rest, label);
            match owner(rest, label) {
                Some(id) => {
                    let s = SessionView { id, label: Some(label) };
                    let k = choose|k: int| 0 <= k < rest.len() && rest[k] == s;
                    assert(sessions[k + 1] == s);
                },
                None => {
                    assert forall|i: int| 0 <= i < sessions.len() implies !wears(
                        #[trigger] sessions[i],
                        label,
                    ) by {
                        if i > 0 {
                            assert(rest[i - 1] == sessions[i]);
                        }
                    }
                },
            }
        }
    }
}

/// However a delivery goes, the attempts that the metrics count are three at
/// most.
pub proof fn law_counted_attempts_are_bounded(
    d: DeliveryView,
    sessions: Seq<SessionView>,
    report: ReportView,
    i: int,
)
    requires
        d.wf(),
        0 <= i < d.step(sessions, report).1.metrics.len(),
    ensures
        d.step(sessions, report).1.metrics[i] is Liveness ==> exists|k: nat|
            1 <= k <= LIVENESS_PROBE_MAX_ATTEMPTS
                && d.step(sessions, report).1.metrics[i]->Liveness_attempt == #[trigger] decimal(k),
{
    let attempt: u32 = match d.stage {
        Stage::Probing { attempt, .. } => attempt,
        Stage::Waiting { attempt } => attempt,
        _ => 1,
    };
    let k = attempt as nat;
    if d.step(sessions, report).1.metrics[i] is Liveness {
        assert(d.step(sessions, report).1.metrics[i]->Liveness_attempt == decimal(k));
    }
}

/// Nothing is sent to a session that has not just answered a probe.
pub proof fn law_nothing_is_sent_unprobed(
    d: DeliveryView,
    sessions: Seq<SessionView>,
    report: ReportView,
    session: u128,
)
    requires
        d.wf(),
        d.step(sessions, report).0.stage == (Stage::Sending { session }),
        d.stage != (Stage::Sending { session }),
    ensures
        report == ReportView::Probed(true),
        d.stage is Probing,
        d.stage->Probing_session == session,
{
}

/// Whether some registry of a run, the one at the start among them, held a
/// session of an identifier under a label.
pub open spec fn has_worn(
    start: Seq<SessionView>,
    trace: Seq<(Seq<SessionView>, ReportView)>,
    id: u128,
    label: Seq<char>,
) -> bool {
    ||| start.contains(SessionView { id, label: Some(label) })
    ||| exists|i: int|
        0 <= i < trace.len() && (#[trigger] trace[i]).0.contains(
            SessionView { id, label: Some(label) },
        )
}

/// A targeted notification is sent to no session but one that was registered
/// under the label while it was delivered.
pub proof fn law_only_the_label_is_reached(
    state: StateView,
    payload: PayloadView,
    ctx: ContextView,
    id: u128,
    ts: Timestamp,
    trace: Seq<(Seq<SessionView>, ReportView)>,
    session: u128,
)
    requires
        ts.wf(),
        payload.target is Some,
        action_in(run(started(state, payload, ctx, id, ts), trace).stage) == Action::Send(session),
    ensures
        has_worn(
            state.sessions,
            trace,
            session,
            resolve(state.aliases, payload.target->Some_0),
        ),
{
    lemma_wearer_at_hand(state, payload, ctx, id, ts, trace);
}

/// The session that a stage deals with.
spec fn dealt_with(stage: Stage) -> Option<u128> {
    match stage {
        Stage::Probing { session, .. } => Some(session),
        Stage::Sending { session } => Some(session),
        _ => None,
    }
}

proof fn lemma_wearer_at_hand(
    state: StateView,
    payload: PayloadView,
    ctx: ContextView,
    id: u128,
    ts: Timestamp,
    trace: Seq<(Seq<SessionView>, ReportView)>,
)
    requires
        ts.wf(),
        payload.target is Some,
    ensures
        run(started(state, payload, ctx, id, ts), trace).wf(),
        match dealt_with(run(started(state, payload, ctx, id, ts), trace).stage) {
            Some(session) => has_worn(
                state.sessions,
                trace,
                session,
                resolve(state.aliases, payload.target->Some_0),
            ),
            None => true,
        },
    decreases trace.len(),
{
    let d0 = started(state, payload, ctx, id, ts);
    let label = resolve(state.aliases, payload.target->Some_0);
    let d = run(d0, trace);
    assert forall|i: nat| i < d0.candidates.len() implies has_worn(
        state.sessions,
        trace,
        (#[trigger] d0.candidates[i as int]).id,
        label,
    ) by {
        let c = d0.candidates[i as int];
        assert(d0.candidates.contains(c));
        law_target_selects_the_label(state.sessions, label, c);
    }
    if trace.len() > 0 {
        let head = trace.drop_last();
        let n = trace.len() - 1;
        let before = run(d0, head);
        lemma_wearer_at_hand(state, payload, ctx, id, ts, head);
        law_message_stays(d0, head);
        if let Some(session) = dealt_with(before.stage) {
            if !state.sessions.contains(SessionView { id: session, label: Some(label) }) {
                let i = choose|i: int|
                    0 <= i < head.len() && (#[trigger] head[i]).0.contains(
                        SessionView { id: session, label: Some(label) },
                    );
                assert(trace[i] == head[i]);
            }
            assert(has_worn(state.sessions, trace, session, label));
        }
        law_retry_finds_the_owner(trace[n].0, label);
        if awaits(before.stage, trace.last().1) {
            law_every_report_makes_progress(before, trace.last().0, trace.last().1);
        }
        if let Some(session) = dealt_with(d.stage) {
            if d.outcomes.len() > before.outcomes.len() {
                assert(session == d0.candidates[d.outcomes.len() as int].id);
            } else if before.stage is Waiting && d.stage is Probing {
                assert(owner(trace[n].0, label) == Some(session));
                assert(trace[n].0.contains(SessionView { id: session, label: Some(label) }));
            } else {
                assert(dealt_with(before.stage) == Some(session));
            }
        }
    }
}

/// What a meta object holds besides the keys that a delivery sets itself.
pub open spec fn own_meta(meta: Map<Seq<char>, Seq<char>>, source: Option<Seq<char>>) -> Map<
    Seq<char>,
    Seq<char>,
> {
    let rest = meta.remove("ts"@).remove("id"@);
    match source {
        Some(_) => rest.remove("source"@),
        None => rest,
    }
}

/// What is stored of a delivery can be read back without loss: in the years that
/// RFC 3339 can write, and where the JSON reader gives back as it was written
/// what the caller's meta object holds besides the keys that are set here.
pub proof fn law_delivered_rows_read_back(
    state: StateView,
    payload: PayloadView,
    ctx: ContextView,
    id: u128,
    ts: Timestamp,
    trace: Seq<(Seq<SessionView>, ReportView)>,
)
    requires
        ts.wf(),
        in_four_digit_years(ts.secs as int),
        readable_members(own_meta(payload.meta, payload.source)),
    ensures
        run(started(state, payload, ctx, id, ts), trace).row().reads_back(),
{
    law_message_stays(started(state, payload, ctx, id, ts), trace);
    let meta = full_meta(payload.meta, payload.source, ts, id);
    let own = own_meta(payload.meta, payload.source);
    lemma_keys_are_free();
    assert forall|k: Seq<char>| #[trigger] meta.contains_key(k) implies readable(meta[k]) by {
        if k == "id"@ {
            lemma_string_is_readable(id_text(id));
        } else if k == "ts"@ {
            lemma_string_is_readable(stamp_text(ts));
        } else if k == "source"@ && payload.source is Some {
            lemma_string_is_readable(payload.source->Some_0);
        } else {
            assert(own.contains_key(k));
        }
    }
    if meta.contains_key(reserved_key()) {
        assert(own.contains_key(reserved_key()));
        let k = choose|k: Seq<char>| #[trigger]
            own.contains_key(k) && text_less(k, reserved_key());
        assert(meta.contains_key(k));
    }
    assert(meta.dom() =~= own.dom().union(
        Set::empty().insert("ts"@).insert("id"@).union(
            match payload.source {
                Some(_) => Set::empty().insert("source"@),
                None => Set::empty(),
            },
        ),
    ));
    assert(readable_members(meta));
    assert(is_readable_object(object_text(meta)));
}

proof fn lemma_keys_are_free()
    ensures
        "source"@ != reserved_key(),
        "ts"@ != reserved_key(),
        "id"@ != reserved_key(),
{
    reveal_strlit("source");
    reveal_strlit("ts");
    reveal_strlit("id");
    reveal_strlit("$serde_json::private::RawValue");
    assert(reserved_key()[0] == '$');
    assert("source"@[0] != '$');
    assert("ts"@[0] != '$');
    assert("id"@[0] != '$');
}

// ---------------------------------------------------------------------------
// What each report leads to
// ---------------------------------------------------------------------------

/// A session that answers its probe is sent the notification next, whichever
/// attempt it is, however many candidates came before, targeted or not. Nothing
/// else changes, and one answered probe is counted.
pub proof fn law_answer_is_followed_by_a_send(
    d: DeliveryView,
    sessions: Seq<SessionView>,
    session: u128,
    attempt: u32,
)
    requires
        d.wf(),
        d.stage == (Stage::Probing { session, attempt }),
    ensures
        action_in(d.stage) == Action::Probe(session),
        action_in(d.step(sessions, ReportView::Probed(true)).0.stage) == Action::Send(session),
        d.step(sessions, ReportView::Probed(true)).0 == (DeliveryView {
            stage: Stage::Sending { session },
            ..d
        }),
        d.step(sessions, ReportView::Probed(true)).1.metrics == seq![
            UpdateView::Liveness {
                target: d.candidates[d.outcomes.len() as int].label,
                result: "ok"@,
                attempt: decimal(attempt as nat),
            },
        ],
        d.step(sessions, ReportView::Probed(true)).1.events.len() == 0,
{
}

/// A session that does not answer is given up at once in a broadcast, and after
/// the third attempt where it was targeted; before that there is a pause.
pub proof fn law_silence_is_retried_twice(
    d: DeliveryView,
    sessions: Seq<SessionView>,
    session: u128,
    attempt: u32,
)
    requires
        d.wf(),
        d.stage == (Stage::Probing { session, attempt }),
    ensures
        d.target is Some && attempt < 3 ==> d.step(sessions, ReportView::Probed(false)).0 == (
        DeliveryView { stage: Stage::Waiting { attempt }, ..d })
            && action_in(d.step(sessions, ReportView::Probed(false)).0.stage) == Action::Wait
            && d.step(sessions, ReportView::Probed(false)).1.metrics.len() == 0
            && d.step(sessions, ReportView::Probed(false)).1.events.len() == 0,
        d.target is None || attempt >= 3 ==> d.step(
            sessions,
            ReportView::Probed(false),
        ).0.outcomes == d.outcomes.push(Outcome::Skipped) && d.step(
            sessions,
            ReportView::Probed(false),
        ).0.failed == d.failed,
{
}

/// After a pause the first session that wears the label is probed, as the next
/// attempt; where nobody wears it any more, the candidate is given up.
pub proof fn law_pause_is_followed_by_the_owner(
    d: DeliveryView,
    sessions: Seq<SessionView>,
    attempt: u32,
    k: int,
)
    requires
        d.wf(),
        d.stage == (Stage::Waiting { attempt }),
        0 <= k <= sessions.len(),
        forall|i: int| 0 <= i < k ==> (#[trigger] sessions[i]).label != d.target,
        k < sessions.len() ==> sessions[k].label == d.target,
    ensures
        k < sessions.len() ==> d.step(sessions, ReportView::Waited).0 == (DeliveryView {
            stage: Stage::Probing { session: sessions[k].id, attempt: (attempt + 1) as u32 },
            ..d
        }),
        k == sessions.len() ==> d.step(sessions, ReportView::Waited).0.outcomes == d.outcomes.push(
            Outcome::Skipped,
        ),
{
    lemma_owner_is(sessions, d.target->Some_0, k);
}

proof fn lemma_owner_is(sessions: Seq<SessionView>, label: Seq<char>, k: int)
    requires
        0 <= k <= sessions.len(),
        forall|i: int| 0 <= i < k ==> (#[trigger] sessions[i]).label != Some(label),
        k < sessions.len() ==> sessions[k].label == Some(label),
    ensures
        owner(sessions, label) == if k < sessions.len() {
            Some(sessions[k].id)
        } else {
            None
        },
    decreases sessions.len(),
{
    if sessions.len() > 0 && k > 0 {
        let rest = sessions.skip(1);
        assert(sessions[0].label != Some(label));
        assert forall|i: int| 0 <= i < k - 1 implies (#[trigger] rest[i]).label != Some(label) by {
            assert(rest[i] == sessions[i + 1]);
        }
        lemma_owner_is(rest, label, k - 1);
    }
}

/// A send that succeeds makes its candidate a receiver and is counted once, under
/// the sender's label, the receiver's or `<broadcast>`, and the kind; one that
/// fails is counted and logged as such, and its session is marked.
pub proof fn law_send_decides_the_outcome(
    d: DeliveryView,
    sessions: Seq<SessionView>,
    session: u128,
    error: Seq<char>,
)
    requires
        d.wf(),
        d.stage == (Stage::Sending { session }),
    ensures
        d.step(sessions, ReportView::Sent).0.outcomes == d.outcomes.push(Outcome::Delivered),
        d.step(sessions, ReportView::Sent).0.failed == d.failed,
        d.step(sessions, ReportView::Sent).1.events.len() == 0,
        d.source is Some && d.target is Some ==> d.step(sessions, ReportView::Sent).1.metrics
            == seq![
            UpdateView::Message {
                source: d.source->Some_0,
                target: d.target->Some_0,
                kind: d.kind,
            },
        ],
        d.source is Some && d.target is None ==> d.step(sessions, ReportView::Sent).1.metrics
            == seq![
            UpdateView::Message {
                source: d.source->Some_0,
                target: "<broadcast>"@,
                kind: d.kind,
            },
        ],
        d.step(sessions, ReportView::SendFailed(error)).0.outcomes == d.outcomes.push(
            Outcome::Failed,
        ),
        d.step(sessions, ReportView::SendFailed(error)).0.failed == d.failed.push(session),
        d.step(sessions, ReportView::SendFailed(error)).1.metrics == seq![
            UpdateView::SendFailure { reason: "delivery_error"@ },
        ],
        d.step(sessions, ReportView::SendFailed(error)).1.events.len() == 1,
        d.step(sessions, ReportView::SendFailed(error)).1.events[0].event == "send_failed"@,
        text_member(
            d.step(sessions, ReportView::SendFailed(error)).1.events[0].fields,
            "error"@,
        ) == Some(error),
        text_member(
            d.step(sessions, ReportView::SendFailed(error)).1.events[0].fields,
            "target"@,
        ) == Some(d.candidates[d.outcomes.len() as int].label),
        text_member(
            d.step(sessions, ReportView::SendFailed(error)).1.events[0].fields,
            "message_id"@,
        ) == Some(id_text(d.id)),
{
    lemma_event_keys_differ();
    lemma_json_quote(error);
    lemma_json_quote(d.at_hand());
    lemma_json_quote(id_text(d.id));
}

/// A candidate that is given up is counted and logged as timed out, with the
/// number of attempts that were made.
pub proof fn law_giving_up_is_told(
    d: DeliveryView,
    sessions: Seq<SessionView>,
    report: ReportView,
    attempt: u32,
)
    requires
        d.wf(),
        awaits(d.stage, report),
        d.step(sessions, report).0.outcomes == d.outcomes.push(Outcome::Skipped),
        match d.stage {
            Stage::Probing { attempt: a, .. } => a == attempt,
            Stage::Waiting { attempt: a } => a == attempt,
            _ => false,
        },
    ensures
        d.step(sessions, report).1.metrics == seq![
            UpdateView::Liveness {
                target: d.candidates[d.outcomes.len() as int].label,
                result: "timeout"@,
                attempt: decimal(attempt as nat),
            },
            UpdateView::SendFailure { reason: "liveness_timeout"@ },
        ],
        d.step(sessions, report).1.events.len() == 1,
        d.step(sessions, report).1.events[0].event == "delivery_skipped"@,
        text_member(d.step(sessions, report).1.events[0].fields, "target"@) == Some(
            d.candidates[d.outcomes.len() as int].label,
        ),
        text_member(d.step(sessions, report).1.events[0].fields, "reason"@) == Some(
            "liveness_timeout"@,
        ),
        d.step(sessions, report).1.events[0].fields["attempts"@] == decimal(attempt as nat),
        text_member(d.step(sessions, report).1.events[0].fields, "message_id"@) == Some(
            id_text(d.id),
        ),
{
    lemma_event_keys_differ();
    lemma_json_quote(d.at_hand());
    lemma_json_quote("liveness_timeout"@);
    lemma_json_quote(id_text(d.id));
    assert(d.step(sessions, report).0.outcomes.len() == d.outcomes.len() + 1);
    assert(d.step(sessions, report).0.outcomes.last() == Outcome::Skipped);
}

proof fn lemma_event_keys_differ()
    ensures
        "target"@ != "reason"@,
        "target"@ != "attempts"@,
        "target"@ != "message_id"@,
        "target"@ != "error"@,
        "reason"@ != "attempts"@,
        "reason"@ != "message_id"@,
        "attempts"@ != "message_id"@,
        "error"@ != "message_id"@,
{
    reveal_strlit("target");
    reveal_strlit("reason");
    reveal_strlit("attempts");
    reveal_strlit("message_id");
    reveal_strlit("error");
    assert("target"@.len() == 6);
    assert("reason"@.len() == 6);
    assert("target"@[0] != "reason"@[0]);
    assert("attempts"@.len() == 8);
    assert("message_id"@.len() == 10);
    assert("error"@.len() == 5);
}

/// Candidates are dealt with one after another: once one has an outcome, the
/// next is probed for the first time, until there is none.
pub proof fn law_candidates_take_turns(
    d: DeliveryView,
    sessions: Seq<SessionView>,
    report: ReportView,
)
    requires
        d.wf(),
        d.step(sessions, report).0.outcomes != d.outcomes,
    ensures
        d.step(sessions, report).0.outcomes.len() == d.outcomes.len() + 1,
        d.outcomes.len() + 1 < d.candidates.len() ==> d.step(sessions, report).0.stage == (
        Stage::Probing { session: d.candidates[d.outcomes.len() as int + 1].id, attempt: 1 }),
        d.outcomes.len() + 1 == d.candidates.len() ==> action_in(d.step(sessions, report).0.stage)
            == Action::Finish,
{
}

/// Whether every probe of a run is answered and every send succeeds.
pub open spec fn all_goes_well(trace: Seq<(Seq<SessionView>, ReportView)>) -> bool {
    forall|i: int|
        0 <= i < trace.len() ==> (#[trigger] trace[i]).1 != ReportView::Probed(false) && !(
        trace[i].1 is SendFailed)
}

/// Where every probe is answered and every send succeeds, everybody that the
/// notification is meant for receives it: in a broadcast all sessions, and of
/// a label all its wearers. No failure is recorded and nobody is removed.
pub proof fn law_everybody_who_answers_receives(
    state: StateView,
    payload: PayloadView,
    ctx: ContextView,
    id: u128,
    ts: Timestamp,
    trace: Seq<(Seq<SessionView>, ReportView)>,
    sessions: Seq<SessionView>,
)
    requires
        ts.wf(),
        all_goes_well(trace),
        action_in(run(started(state, payload, ctx, id, ts), trace).stage) == Action::Finish,
    ensures
        run(started(state, payload, ctx, id, ts), trace).row().delivered_to == started(
            state,
            payload,
            ctx,
            id,
            ts,
        ).candidates.map_values(|c: CandidateView| c.label),
        run(started(state, payload, ctx, id, ts), trace).row().delivery_errors.len() == 0,
        payload.target is None ==> run(
            started(state, payload, ctx, id, ts),
            trace,
        ).row().delivered_to.len() == state.sessions.len(),
        forall|s: SessionView| #[trigger]
            sessions.contains(s) ==> run(
                started(state, payload, ctx, id, ts),
                trace,
            ).sessions_after(sessions).contains(s),
{
    let d0 = started(state, payload, ctx, id, ts);
    let d = run(d0, trace);
    lemma_well_so_far(d0, trace);
    law_message_stays(d0, trace);
    lemma_all_delivered(d.candidates, d.outcomes);
    assert(d.outcomes.len() == d.candidates.len());
    assert(labels_where(d.candidates, d.outcomes, true) =~= d0.candidates.map_values(
        |c: CandidateView| c.label,
    ));
    if payload.target is None {
        law_broadcast_selects_all(state.sessions);
    }
    assert forall|s: SessionView| #[trigger] sessions.contains(s) implies d.sessions_after(
        sessions,
    ).contains(s) by {
        law_eviction_is_exact(sessions, d.failed, s);
    }
}

proof fn lemma_well_so_far(d: DeliveryView, trace: Seq<(Seq<SessionView>, ReportView)>)
    requires
        d.wf(),
        !(d.stage is Waiting),
        all_goes_well(trace),
        d.failed.len() == 0,
        forall|i: int| 0 <= i < d.outcomes.len() ==> d.outcomes[i] == Outcome::Delivered,
    ensures
        run(d, trace).wf(),
        !(run(d, trace).stage is Waiting),
        run(d, trace).failed.len() == 0,
        forall|i: int|
            0 <= i < run(d, trace).outcomes.len() ==> run(d, trace).outcomes[i]
                == Outcome::Delivered,
    decreases trace.len(),
{
    if trace.len() > 0 {
        let head = trace.drop_last();
        assert forall|i: int| 0 <= i < head.len() implies (#[trigger] head[i]).1
            != ReportView::Probed(false) && !(head[i].1 is SendFailed) by {
            assert(head[i] == trace[i]);
        }
        lemma_well_so_far(d, head);
        let before = run(d, head);
        assert(trace[trace.len() - 1] == trace.last());
        if awaits(before.stage, trace.last().1) {
            law_every_report_makes_progress(before, trace.last().0, trace.last().1);
        }
    }
}

proof fn lemma_all_delivered(candidates: Seq<CandidateView>, outcomes: Seq<Outcome>)
    requires
        outcomes.len() <= candidates.len(),
        forall|i: int| 0 <= i < outcomes.len() ==> outcomes[i] == Outcome::Delivered,
    ensures
        labels_where(candidates, outcomes, false).len() == 0,
        labels_where(candidates, outcomes, true) == Seq::new(
            outcomes.len(),
            |i: int| candidates[i].label,
        ),
    decreases outcomes.len(),
{
    if outcomes.len() > 0 {
        lemma_all_delivered(candidates, outcomes.drop_last());
        assert(labels_where(candidates, outcomes, true) =~= Seq::new(
            outcomes.len(),
            |i: int| candidates[i].label,
        ));
    } else {
        assert(labels_where(candidates, outcomes, true) =~= Seq::new(
            outcomes.len(),
            |i: int| candidates[i].label,
        ));
    }
}

/// The lists of receivers and of failures are in the order of the candidates:
/// one more outcome puts its candidate's label at the end of one of them, and
/// leaves the other as it was.
pub proof fn law_lists_are_in_order(
    candidates: Seq<CandidateView>,
    outcomes: Seq<Outcome>,
    outcome: Outcome,
)
    requires
        outcomes.len() < candidates.len(),
    ensures
        outcome == Outcome::Delivered ==> labels_where(candidates, outcomes.push(outcome), true)
            == labels_where(candidates, outcomes, true).push(
            candidates[outcomes.len() as int].label,
        ) && labels_where(candidates, outcomes.push(outcome), false) == labels_where(
            candidates,
            outcomes,
            false,
        ),
        outcome != Outcome::Delivered ==> labels_where(candidates, outcomes.push(outcome), false)
            == labels_where(candidates, outcomes, false).push(
            candidates[outcomes.len() as int].label,
        ) && labels_where(candidates, outcomes.push(outcome), true) == labels_where(
            candidates,
            outcomes,
            true,
        ),
{
    assert(outcomes.push(outcome).drop_last() =~= outcomes);
}

// ---------------------------------------------------------------------------
// What is sent and what is stored
// ---------------------------------------------------------------------------

/// The notification carries the message as it was given: its content character
/// for character, whatever its length, and the meta object with what the
/// delivery puts into it; and nothing else.
pub proof fn law_notification_carries_the_message(
    state: StateView,
    payload: PayloadView,
    ctx: ContextView,
    id: u128,
    ts: Timestamp,
    trace: Seq<(Seq<SessionView>, ReportView)>,
    key: Seq<char>,
)
    ensures
        text_member(run(started(state, payload, ctx, id, ts), trace).params, "content"@) == Some(
            payload.content,
        ),
        run(started(state, payload, ctx, id, ts), trace).params["meta"@] == object_text(
            run(started(state, payload, ctx, id, ts), trace).meta,
        ),
        run(started(state, payload, ctx, id, ts), trace).params.contains_key(key) <==> key
            == "content"@ || key == "meta"@,
        payload.source is Some ==> text_member(
            run(started(state, payload, ctx, id, ts), trace).meta,
            "source"@,
        ) == payload.source,
        text_member(run(started(state, payload, ctx, id, ts), trace).meta, "id"@) == Some(
            id_text(id),
        ),
        text_member(run(started(state, payload, ctx, id, ts), trace).meta, "ts"@) == Some(
            stamp_text(ts),
        ),
        key != "ts"@ && key != "id"@ && (key != "source"@ || payload.source is None) ==> (run(
            started(state, payload, ctx, id, ts),
            trace,
        ).meta.contains_key(key) <==> payload.meta.contains_key(key)) && (
        payload.meta.contains_key(key) ==> run(started(state, payload, ctx, id, ts), trace).meta[key]
            == payload.meta[key]),
{
    let d = started(state, payload, ctx, id, ts);
    law_message_stays(d, trace);
    lemma_json_quote(payload.content);
    reveal_strlit("content");
    reveal_strlit("meta");
    assert("content"@.len() == 7);
    assert("meta"@.len() == 4);
    lemma_keys_differ();
    lemma_json_quote(stamp_text(ts));
    lemma_json_quote(id_text(id));
    if let Some(s) = payload.source {
        lemma_json_quote(s);
    }
}

/// The kind under which a message is counted is the one that its meta object
/// names, where that is one of the six known, `other` where it names another,
/// and `none` where it names none as a string.
pub proof fn law_kind_comes_from_the_meta(
    state: StateView,
    payload: PayloadView,
    ctx: ContextView,
    id: u128,
    ts: Timestamp,
)
    ensures
        match text_member(payload.meta, "kind"@) {
            Some(k) => started(state, payload, ctx, id, ts).kind == if k == "info"@ || k
                == "status"@ || k == "ack"@ || k == "request"@ || k == "question"@ || k
                == "reply"@ {
                k
            } else {
                "other"@
            },
            None => started(state, payload, ctx, id, ts).kind == "none"@,
        },
{
    reveal_strlit("kind");
    reveal_strlit("source");
    reveal_strlit("ts");
    reveal_strlit("id");
    assert("kind"@.len() == 4);
    assert("source"@.len() == 6);
    assert("ts"@.len() == 2);
    assert("id"@.len() == 2);
    law_other_meta_passes_through(payload.meta, payload.source, ts, id, "kind"@);
}

/// The stored row tells where the message came from and when: its identifier,
/// its time, the way in (the webhook where none is told), the address and the
/// session of the sender; and without a sender's label, an empty one.
pub proof fn law_row_tells_the_origin(
    state: StateView,
    payload: PayloadView,
    ctx: ContextView,
    id: u128,
    ts: Timestamp,
    trace: Seq<(Seq<SessionView>, ReportView)>,
)
    ensures
        run(started(state, payload, ctx, id, ts), trace).row().id == id,
        run(started(state, payload, ctx, id, ts), trace).row().ts == ts,
        ctx.via is Some ==> run(started(state, payload, ctx, id, ts), trace).row().via
            == ctx.via->Some_0,
        ctx.via is None ==> run(started(state, payload, ctx, id, ts), trace).row().via
            == Via::Notify,
        run(started(state, payload, ctx, id, ts), trace).row().sender_addr == ctx.sender_addr,
        run(started(state, payload, ctx, id, ts), trace).row().sender_session_id
            == ctx.sender_session_id,
        payload.source is None ==> run(started(state, payload, ctx, id, ts), trace).row().source
            == Seq::<char>::empty(),
        run(started(state, payload, ctx, id, ts), trace).row().content == payload.content,
        payload.target is None ==> run(started(state, payload, ctx, id, ts), trace).row().target
            is None,
        payload.target is Some && state.aliases.contains_key(payload.target->Some_0) ==> run(
            started(state, payload, ctx, id, ts),
            trace,
        ).row().target == Some(state.aliases[payload.target->Some_0]),
        payload.target is Some && !state.aliases.contains_key(payload.target->Some_0) ==> run(
            started(state, payload, ctx, id, ts),
            trace,
        ).row().target == payload.target,
{
    law_message_stays(started(state, payload, ctx, id, ts), trace);
}

/// A finished delivery counts as one to an unknown target if and only if it had
/// a target and nobody to try; the number of sessions is the one that is left.
pub proof fn law_end_is_told(d: DeliveryView, active: nat)
    requires
        d.wf(),
        action_in(d.stage) == Action::Finish,
    ensures
        d.end_effects(active).events.len() == 0,
        d.end_effects(active).metrics.last() == (UpdateView::ActiveSessions { count: active }),
        d.target is Some && d.candidates.len() == 0 ==> d.end_effects(active).metrics.len() == 2
            && d.end_effects(active).metrics[0] == (UpdateView::SendFailure {
            reason: "target_unknown"@,
        }),
        d.target is None || d.candidates.len() > 0 ==> d.end_effects(active).metrics.len() == 1,
{
    lemma_labels_len(d.candidates, d.outcomes);
}

/// Candidates are taken in the order of the registry: a session that joins after
/// the others comes after them, if the notification is meant for it.
pub proof fn law_candidates_are_in_order(
    sessions: Seq<SessionView>,
    target: Option<Seq<char>>,
    s: SessionView,
)
    ensures
        target is None || s.label == target ==> candidates_of(sessions.push(s), target)
            == candidates_of(sessions, target).push(
            CandidateView {
                id: s.id,
                label: match s.label {
                    Some(l) => l,
                    None => "<unlabeled>"@,
                },
            },
        ),
        target is Some && s.label != target ==> candidates_of(sessions.push(s), target)
            == candidates_of(sessions, target),
        candidates_of(Seq::empty(), target).len() == 0,
{
    reveal(Seq::filter);
    let all = sessions.push(s);
    assert(all.drop_last() =~= sessions);
    assert(all.last() == s);
    assert(candidates_of(Seq::empty(), target) =~= Seq::empty());
    if meant_for(s, target) {
        assert(candidates_of(all, target) =~= candidates_of(sessions, target).push(
            CandidateView { id: s.id, label: shown_label(s.label) },
        ));
    }
}

} // verus!
