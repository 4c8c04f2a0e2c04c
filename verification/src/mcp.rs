//! The session registry and the tools that sessions call.
use crate::config::string_map;
use crate::db::Via;
use crate::http::{meta_members, NotifyPayload, PayloadView};
use crate::ids::{is_v7, new_id};
use crate::json::{lemma_json_quote, new_object, no_members, put, text_member, Field, Object};
use crate::jsonl::{event_views, json_or_null, EventView, LogEvent};
use crate::metrics::{session_update, update_views, MetricUpdate, UpdateView};
use crate::text::{
    decimal, join, join_strings, lacks, law_parted_at_the_first_separator, law_parts_are_found,
    law_split_at_a_separator, lemma_shows, opt_view, same, shows, split, split_on, split_once,
    split_once_str, str_or, u64_text, views,
};
use vstd::hash_map::StringHashMap;
use vstd::prelude::*;
use vstd::string::StringExecFns;

verus! {

// ---------------------------------------------------------------------------
// State
// ---------------------------------------------------------------------------

/// A connected session and its user-supplied label (from the `?label=` query).
/// `id` is a salon-local identity: when a send fails on a session, that exact
/// session is removed from the registry, whoever holds its label by then.
pub struct Session {
    pub id: u128,
    pub label: Option<String>,
}

/// A session over characters.
#[verifier::ext_equal]
pub struct SessionView {
    pub id: u128,
    pub label: Option<Seq<char>>,
}

impl View for Session {
    type V = SessionView;

    open spec fn view(&self) -> SessionView {
        SessionView { id: self.id, label: opt_view(self.label) }
    }
}

/// The views of a list of sessions.
pub open spec fn session_views(v: Seq<Session>) -> Seq<SessionView> {
    v.map_values(|s: Session| s@)
}

/// Shared state of the salon.
pub struct SalonState {
    pub port: u16,
    pub message_count: u64,
    pub sessions: Vec<Session>,
    /// Alias to real label, applied to the `target` of a delivery. Lets a
    /// sender use an innocuous alias (e.g. `notes`) that resolves to the real
    /// session label (e.g. `laptop-a`), so that the real target is never named
    /// in the sender's environment.
    pub aliases: StringHashMap<String>,
}

/// The state over characters.
#[verifier::ext_equal]
pub struct StateView {
    pub port: u16,
    pub message_count: u64,
    pub sessions: Seq<SessionView>,
    pub aliases: Map<Seq<char>, Seq<char>>,
}

impl View for SalonState {
    type V = StateView;

    open spec fn view(&self) -> StateView {
        StateView {
            port: self.port,
            message_count: self.message_count,
            sessions: session_views(self.sessions@),
            aliases: string_map(self.aliases),
        }
    }
}

impl StateView {
    /// A label identifies a single session.
    pub open spec fn wf(self) -> bool {
        one_owner(self.sessions)
    }
}

/// The count after one more message. It wraps around.
pub open spec fn next_count(n: u64) -> u64 {
    if n == u64::MAX {
        0
    } else {
        (n + 1) as u64
    }
}

impl SalonState {
    /// A salon without sessions that has relayed nothing yet.
    pub fn new(port: u16, aliases: StringHashMap<String>) -> (r: Self)
        ensures
            r@ == (StateView {
                port,
                message_count: 0,
                sessions: Seq::empty(),
                aliases: string_map(aliases),
            }),
            r@.wf(),
    {
        let r = SalonState { port, message_count: 0, sessions: Vec::new(), aliases };
        proof {
            assert(r@.sessions =~= Seq::empty());
        }
        r
    }

    /// Counts a message.
    pub fn count_message(&mut self)
        ensures
            final(self)@ == (StateView {
                message_count: next_count(old(self).message_count),
                ..old(self)@
            }),
    {
        self.message_count = self.message_count.wrapping_add(1);
    }
}

// ---------------------------------------------------------------------------
// Labels
// ---------------------------------------------------------------------------

/// The value of the first `label=` among the pairs of a query.
pub open spec fn first_label(pairs: Seq<Seq<char>>) -> Option<Seq<char>>
    decreases pairs.len(),
{
    if pairs.len() == 0 {
        None
    } else {
        match split_once(pairs[0], '=') {
            Some(p) => if p.0 == "label"@ {
                Some(p.1)
            } else {
                first_label(pairs.skip(1))
            },
            None => first_label(pairs.skip(1)),
        }
    }
}

/// The label that a query names.
pub open spec fn query_label(query: Seq<char>) -> Option<Seq<char>> {
    first_label(split(query, '&'))
}

/// Finds the label in a query: the value of the first `label=`, as it stands.
pub fn extract_label(query: &str) -> (r: Option<String>)
    ensures
        opt_view(r) == query_label(query@),
{
    let pairs = split_on(query, '&');
    let ghost all = views(pairs@);
    let mut i: usize = 0;
    proof {
        assert(all.skip(0) =~= all);
    }
    while i < pairs.len()
        invariant
            i <= pairs@.len(),
            all == views(pairs@),
            all == split(query@, '&'),
            first_label(all) == first_label(all.skip(i as int)),
        decreases pairs@.len() - i,
    {
        proof {
            assert(all.skip(i as int)[0] == pairs@[i as int]@);
            assert(all.skip(i as int).skip(1) =~= all.skip(i + 1));
        }
        if let Some(p) = split_once_str(pairs[i].as_str(), '=') {
            if same(p.0.as_str(), "label") {
                return Some(p.1);
            }
        }
        i += 1;
    }
    None
}

/// Whether a session wears a label.
pub open spec fn wears(s: SessionView, label: Seq<char>) -> bool {
    s.label == Some(label)
}

/// Whether a session wears a label.
pub fn is_labelled(s: &Session, label: &str) -> (r: bool)
    ensures
        r == wears(s@, label@),
{
    match &s.label {
        Some(l) => same(l.as_str(), label),
        None => false,
    }
}

/// No two sessions wear one label.
pub open spec fn one_owner(sessions: Seq<SessionView>) -> bool {
    forall|i: int, j: int|
        0 <= i < j < sessions.len() && (#[trigger] sessions[i]).label is Some ==> sessions[i].label
            != (#[trigger] sessions[j]).label
}

// ---------------------------------------------------------------------------
// The registry
// ---------------------------------------------------------------------------

/// The sessions that a newcomer leaves in place: all but those that wear its
/// label.
pub open spec fn without_label(
    sessions: Seq<SessionView>,
    label: Option<Seq<char>>,
) -> Seq<SessionView> {
    match label {
        Some(l) => sessions.filter(|s: SessionView| !wears(s, l)),
        None => sessions,
    }
}

/// The registry after a session has joined: a label is identity, so a newcomer
/// takes it from whoever held it. Sessions without a label are left alone.
pub open spec fn joined(
    sessions: Seq<SessionView>,
    id: u128,
    label: Option<Seq<char>>,
) -> Seq<SessionView> {
    without_label(sessions, label).push(SessionView { id, label })
}

proof fn lemma_filter_step(
    all: Seq<SessionView>,
    keep: spec_fn(SessionView) -> bool,
    k: int,
)
    requires
        0 <= k < all.len(),
    ensures
        all.take(k + 1).filter(keep) == if keep(all[k]) {
            all.take(k).filter(keep).push(all[k])
        } else {
            all.take(k).filter(keep)
        },
{
    assert(all.take(k + 1).drop_last() =~= all.take(k));
    reveal(Seq::filter);
}

proof fn lemma_filter_start(all: Seq<SessionView>, keep: spec_fn(SessionView) -> bool)
    ensures
        all.take(0).filter(keep) + all.skip(0) == all,
        all.take(0).filter(keep).len() == 0,
{
    reveal(Seq::filter);
    assert(all.take(0).filter(keep) =~= Seq::empty());
    assert(all.take(0).filter(keep) + all.skip(0) =~= all);
}

/// Removes the sessions that wear a label, and says how many they were.
fn remove_label(sessions: &mut Vec<Session>, label: &str) -> (evicted: usize)
    ensures
        session_views(final(sessions)@) == without_label(
            session_views(old(sessions)@),
            Some(label@),
        ),
        evicted == old(sessions)@.len() - final(sessions)@.len(),
{
    let ghost all = session_views(sessions@);
    let ghost keep = |s: SessionView| !wears(s, label@);
    let ghost mut k: int = 0;
    let total = sessions.len();
    let mut i: usize = 0;
    proof {
        lemma_filter_start(all, keep);
    }
    while i < sessions.len()
        invariant
            i <= sessions@.len() <= total,
            0 <= k <= all.len(),
            keep == (|s: SessionView| !wears(s, label@)),
            i == all.take(k).filter(keep).len(),
            session_views(sessions@) == all.take(k).filter(keep) + all.skip(k),
        decreases sessions@.len() - i,
    {
        proof {
            assert(session_views(sessions@).len() == sessions@.len());
            assert(session_views(sessions@)[i as int] == sessions@[i as int]@);
            assert(sessions@[i as int]@ == all[k]);
            lemma_filter_step(all, keep, k);
        }
        let ghost now = session_views(sessions@);
        if is_labelled(&sessions[i], label) {
            sessions.remove(i);
            proof {
                assert(session_views(sessions@) =~= now.remove(i as int));
                assert(session_views(sessions@) =~= all.take(k + 1).filter(keep) + all.skip(k + 1));
            }
        } else {
            i += 1;
            proof {
                assert(now =~= all.take(k + 1).filter(keep) + all.skip(k + 1));
            }
        }
        proof {
            k = k + 1;
        }
    }
    proof {
        assert(session_views(sessions@).len() == sessions@.len());
        assert(all.skip(k).len() == 0);
        assert(all.take(k) =~= all);
        assert(session_views(sessions@) =~= all.filter(keep));
    }
    total - sessions.len()
}

/// The registry without the sessions of some identifiers.
pub open spec fn without_ids(sessions: Seq<SessionView>, ids: Seq<u128>) -> Seq<SessionView> {
    sessions.filter(|s: SessionView| !ids.contains(s.id))
}

fn holds_id(ids: &Vec<u128>, id: u128) -> (r: bool)
    ensures
        r == ids@.contains(id),
{
    let mut i: usize = 0;
    while i < ids.len()
        invariant
            i <= ids@.len(),
            forall|j: int| 0 <= j < i ==> ids@[j] != id,
        decreases ids@.len() - i,
    {
        if ids[i] == id {
            proof {
                assert(ids@[i as int] == id);
            }
            return true;
        }
        i += 1;
    }
    false
}

/// Removes the sessions of some identifiers.
pub(crate) fn remove_ids(sessions: &mut Vec<Session>, ids: &Vec<u128>)
    ensures
        session_views(final(sessions)@) == without_ids(session_views(old(sessions)@), ids@),
{
    let ghost all = session_views(sessions@);
    let ghost keep = |s: SessionView| !ids@.contains(s.id);
    let ghost mut k: int = 0;
    let mut i: usize = 0;
    proof {
        lemma_filter_start(all, keep);
    }
    while i < sessions.len()
        invariant
            i <= sessions@.len(),
            0 <= k <= all.len(),
            keep == (|s: SessionView| !ids@.contains(s.id)),
            i == all.take(k).filter(keep).len(),
            session_views(sessions@) == all.take(k).filter(keep) + all.skip(k),
        decreases sessions@.len() - i,
    {
        proof {
            assert(session_views(sessions@).len() == sessions@.len());
            assert(session_views(sessions@)[i as int] == sessions@[i as int]@);
            assert(sessions@[i as int]@ == all[k]);
            lemma_filter_step(all, keep, k);
        }
        let ghost now = session_views(sessions@);
        if holds_id(ids, sessions[i].id) {
            sessions.remove(i);
            proof {
                assert(session_views(sessions@) =~= now.remove(i as int));
                assert(session_views(sessions@) =~= all.take(k + 1).filter(keep) + all.skip(k + 1));
            }
        } else {
            i += 1;
            proof {
                assert(now =~= all.take(k + 1).filter(keep) + all.skip(k + 1));
            }
        }
        proof {
            k = k + 1;
        }
    }
    proof {
        assert(session_views(sessions@).len() == sessions@.len());
        assert(all.skip(k).len() == 0);
        assert(all.take(k) =~= all);
        assert(session_views(sessions@) =~= all.filter(keep));
    }
}

proof fn lemma_filter_keeps_one_owner(
    sessions: Seq<SessionView>,
    keep: spec_fn(SessionView) -> bool,
)
    requires
        one_owner(sessions),
    ensures
        one_owner(sessions.filter(keep)),
        forall|i: int|
            0 <= i < sessions.filter(keep).len() ==> sessions.contains(
                #[trigger] sessions.filter(keep)[i],
            ) && keep(sessions.filter(keep)[i]),
    decreases sessions.len(),
{
    reveal(Seq::filter);
    if sessions.len() > 0 {
        let rest = sessions.drop_last();
        lemma_filter_keeps_one_owner(rest, keep);
        let f = sessions.filter(keep);
        assert forall|i: int| 0 <= i < f.len() implies sessions.contains(#[trigger] f[i]) && keep(
            f[i],
        ) by {
            if i < rest.filter(keep).len() {
                assert(rest.contains(rest.filter(keep)[i]));
                let k = choose|k: int| 0 <= k < rest.len() && rest[k] == f[i];
                assert(sessions[k] == f[i]);
            } else {
                assert(sessions[sessions.len() - 1] == f[i]);
            }
        }
        assert forall|i: int, j: int|
            0 <= i < j < f.len() && (#[trigger] f[i]).label is Some implies f[i].label != (
        #[trigger] f[j]).label by {
            let g = rest.filter(keep);
            if j < g.len() {
                assert(g[i] == f[i] && g[j] == f[j]);
            } else {
                assert(g[i] == f[i]);
                assert(rest.contains(g[i]));
                let k = choose|k: int| 0 <= k < rest.len() && rest[k] == g[i];
                assert(sessions[k] == f[i]);
                assert(f[j] == sessions[sessions.len() - 1]);
            }
        }
    }
}

/// A label has a single live owner: where no two sessions wear one label, the
/// same holds after a session has joined, and the newcomer holds its label.
pub proof fn law_label_has_one_owner(
    sessions: Seq<SessionView>,
    id: u128,
    label: Option<Seq<char>>,
)
    requires
        one_owner(sessions),
    ensures
        one_owner(joined(sessions, id, label)),
        joined(sessions, id, label).last() == (SessionView { id, label }),
{
    if let Some(l) = label {
        lemma_filter_keeps_one_owner(sessions, |s: SessionView| !wears(s, l));
    }
}

/// A newcomer is the only one to wear its label, however many did before.
pub proof fn law_newcomer_owns_its_label(
    sessions: Seq<SessionView>,
    id: u128,
    label: Seq<char>,
    i: int,
)
    requires
        0 <= i < joined(sessions, id, Some(label)).len(),
        wears(joined(sessions, id, Some(label))[i], label),
    ensures
        i == joined(sessions, id, Some(label)).len() - 1,
        joined(sessions, id, Some(label))[i].id == id,
{
    let rest = without_label(sessions, Some(label));
    if i < rest.len() {
        assert(rest.contains(rest[i]));
        lemma_filter_within(sessions, |s: SessionView| !wears(s, label), rest[i]);
    }
}

/// Removing sessions gives no label a second owner.
pub proof fn law_eviction_keeps_owners(sessions: Seq<SessionView>, ids: Seq<u128>)
    requires
        one_owner(sessions),
    ensures
        one_owner(without_ids(sessions, ids)),
{
    lemma_filter_keeps_one_owner(sessions, |s: SessionView| !ids.contains(s.id));
}

/// A session that joins takes the place of none but the sessions that wear its
/// label: every other one stays.
pub proof fn law_joining_spares_the_others(
    sessions: Seq<SessionView>,
    id: u128,
    label: Option<Seq<char>>,
    s: SessionView,
)
    requires
        sessions.contains(s),
        s.label is None || s.label != label,
    ensures
        joined(sessions, id, label).contains(s),
{
    let rest = without_label(sessions, label);
    if let Some(l) = label {
        lemma_filter_contains(sessions, |s: SessionView| !wears(s, l), s);
    }
    let k = choose|k: int| 0 <= k < rest.len() && rest[k] == s;
    assert(joined(sessions, id, label)[k] == s);
}

/// Where no two sessions wear one label, a session that joins takes the place of
/// one other at most.
pub proof fn law_joining_evicts_at_most_one(
    sessions: Seq<SessionView>,
    id: u128,
    label: Option<Seq<char>>,
)
    requires
        one_owner(sessions),
    ensures
        joined(sessions, id, label).len() >= sessions.len(),
{
    if let Some(l) = label {
        lemma_at_most_one_worn(sessions, l);
    }
}

proof fn lemma_at_most_one_worn(sessions: Seq<SessionView>, label: Seq<char>)
    requires
        one_owner(sessions),
    ensures
        without_label(sessions, Some(label)).len() + 1 >= sessions.len(),
        (forall|i: int| 0 <= i < sessions.len() ==> !wears(#[trigger] sessions[i], label))
            ==> without_label(sessions, Some(label)).len() == sessions.len(),
    decreases sessions.len(),
{
    reveal(Seq::filter);
    if sessions.len() > 0 {
        let rest = sessions.drop_last();
        assert forall|i: int, j: int|
            0 <= i < j < rest.len() && (#[trigger] rest[i]).label is Some implies rest[i].label != (
        #[trigger] rest[j]).label by {
            assert(rest[i] == sessions[i] && rest[j] == sessions[j]);
        }
        lemma_at_most_one_worn(rest, label);
        if wears(sessions.last(), label) {
            assert forall|i: int| 0 <= i < rest.len() implies !wears(#[trigger] rest[i], label) by {
                assert(rest[i] == sessions[i]);
                assert(sessions[sessions.len() - 1] == sessions.last());
            }
        }
        if forall|i: int| 0 <= i < sessions.len() ==> !wears(#[trigger] sessions[i], label) {
            assert forall|i: int| 0 <= i < rest.len() implies !wears(#[trigger] rest[i], label) by {
                assert(rest[i] == sessions[i]);
            }
            assert(!wears(sessions[sessions.len() - 1], label));
        }
    }
}

/// Removing sessions by identifier removes exactly those: a session stays if
/// and only if its identifier is not among them.
pub proof fn law_eviction_is_exact(sessions: Seq<SessionView>, ids: Seq<u128>, s: SessionView)
    ensures
        without_ids(sessions, ids).contains(s) <==> sessions.contains(s) && !ids.contains(s.id),
{
    let keep = |s: SessionView| !ids.contains(s.id);
    if sessions.contains(s) && keep(s) {
        lemma_filter_contains(sessions, keep, s);
    }
    lemma_filter_within(sessions, keep, s);
}

proof fn lemma_filter_contains(
    sessions: Seq<SessionView>,
    keep: spec_fn(SessionView) -> bool,
    s: SessionView,
)
    requires
        sessions.contains(s),
        keep(s),
    ensures
        sessions.filter(keep).contains(s),
    decreases sessions.len(),
{
    reveal(Seq::filter);
    let rest = sessions.drop_last();
    let f = sessions.filter(keep);
    if sessions.last() == s {
        assert(f[f.len() - 1] == s);
    } else {
        let k = choose|k: int| 0 <= k < sessions.len() && sessions[k] == s;
        assert(rest[k] == s);
        lemma_filter_contains(rest, keep, s);
        let j = choose|j: int| 0 <= j < rest.filter(keep).len() && rest.filter(keep)[j] == s;
        assert(f[j] == s);
    }
}

proof fn lemma_filter_within(
    sessions: Seq<SessionView>,
    keep: spec_fn(SessionView) -> bool,
    s: SessionView,
)
    ensures
        sessions.filter(keep).contains(s) ==> sessions.contains(s) && keep(s),
    decreases sessions.len(),
{
    reveal(Seq::filter);
    let f = sessions.filter(keep);
    if sessions.len() > 0 && f.contains(s) {
        let rest = sessions.drop_last();
        lemma_filter_within(rest, keep, s);
        let k = choose|k: int| 0 <= k < f.len() && f[k] == s;
        if k < rest.filter(keep).len() {
            assert(rest.filter(keep)[k] == s);
            let j = choose|j: int| 0 <= j < rest.len() && rest[j] == s;
            assert(sessions[j] == s);
        } else {
            assert(sessions[sessions.len() - 1] == s);
        }
    }
}

// ---------------------------------------------------------------------------
// Effects
// ---------------------------------------------------------------------------

/// What a decision changes besides the state: metrics, and events to log.
pub struct Effects {
    pub metrics: Vec<MetricUpdate>,
    pub events: Vec<LogEvent>,
}

/// Effects over characters.
#[verifier::ext_equal]
pub struct EffectsView {
    pub metrics: Seq<UpdateView>,
    pub events: Seq<EventView>,
}

impl View for Effects {
    type V = EffectsView;

    open spec fn view(&self) -> EffectsView {
        EffectsView { metrics: update_views(self.metrics@), events: event_views(self.events@) }
    }
}

// ---------------------------------------------------------------------------
// Deliveries
// ---------------------------------------------------------------------------

/// Context about where a notification originated, captured from the caller's
/// transport (HTTP for `/notify`, MCP for `send_message`).
#[derive(Debug, Clone)]
pub struct DeliveryContext {
    pub via: Option<Via>,
    pub sender_addr: Option<String>,
    pub sender_session_id: Option<String>,
}

/// A context over characters.
#[verifier::ext_equal]
pub struct ContextView {
    pub via: Option<Via>,
    pub sender_addr: Option<Seq<char>>,
    pub sender_session_id: Option<Seq<char>>,
}

impl View for DeliveryContext {
    type V = ContextView;

    open spec fn view(&self) -> ContextView {
        ContextView {
            via: self.via,
            sender_addr: opt_view(self.sender_addr),
            sender_session_id: opt_view(self.sender_session_id),
        }
    }
}

impl Default for DeliveryContext {
    fn default() -> (r: Self)
        ensures
            r@ == (ContextView { via: None, sender_addr: None, sender_session_id: None }),
    {
        DeliveryContext { via: None, sender_addr: None, sender_session_id: None }
    }
}

// ---------------------------------------------------------------------------
// The handler of one session
// ---------------------------------------------------------------------------

/// The handler of one connected session.
pub struct SalonHandler {
    /// This session's own label, captured from `?label=` on the /mcp URL when
    /// it is initialized. It is the `source` of what the session sends.
    pub self_label: Option<String>,
    /// This session's MCP session id (header `Mcp-Session-Id`). Stored on each
    /// message that the session sends.
    pub self_session_id: Option<String>,
}

/// Tool parameters for `send_message`.
pub struct SendMessageParams {
    /// Message body. Shown to the receiver inside the <channel> tag.
    pub content: String,
    /// Target session label. If omitted, the notification is broadcast to
    /// every connected session.
    pub target: Option<String>,
    /// Optional metadata. Every key becomes an attribute on the receiver's
    /// <channel> tag (e.g. `{"kind": "ack"}` -> `<channel kind="ack">`).
    pub meta: Option<Object>,
}

/// Why a tool call is turned down: a JSON-RPC error code and a message.
#[derive(Debug, Clone)]
pub struct ToolError {
    pub code: i32,
    pub message: &'static str,
}

/// What a session sends, and what the tool call is answered once it has been
/// delivered.
pub struct Outgoing {
    pub payload: NotifyPayload,
    pub ctx: DeliveryContext,
    pub reply: String,
}

/// What a session that has joined is registered as.
pub struct Registration {
    pub id: u128,
    /// How many sessions there are now.
    pub active: usize,
    /// How many sessions lost their label to this one.
    pub evicted: usize,
    pub effects: Effects,
}

/// A label to show.
pub open spec fn shown_label(label: Option<Seq<char>>) -> Seq<char> {
    match label {
        Some(l) => l,
        None => "<unlabeled>"@,
    }
}

/// One line of the list of sessions.
pub open spec fn session_line(i: int, s: SessionView) -> Seq<char> {
    "  ["@ + decimal(i as nat) + "] label="@ + shown_label(s.label)
}

/// The list of sessions.
pub open spec fn session_lines(sessions: Seq<SessionView>) -> Seq<char> {
    if sessions.len() == 0 {
        "  (none)"@
    } else {
        join(Seq::new(sessions.len(), |i: int| session_line(i, sessions[i])), "\n"@)
    }
}

/// The status that the salon reports.
pub open spec fn status_text(state: StateView) -> Seq<char> {
    "Notify endpoint:  http://127.0.0.1:"@ + decimal(state.port as nat) + "/notify\n"@
        + "MCP endpoint:     http://127.0.0.1:"@ + decimal(state.port as nat) + "/mcp\n"@
        + "Active sessions ("@ + decimal(state.sessions.len()) + "):\n"@ + session_lines(
        state.sessions,
    ) + "\nMessages relayed: "@ + decimal(state.message_count as nat)
}

fn list_sessions(sessions: &Vec<Session>) -> (r: String)
    ensures
        r@ == session_lines(session_views(sessions@)),
{
    let ghost all = session_views(sessions@);
    let ghost lines = Seq::new(all.len(), |i: int| session_line(i, all[i]));
    if sessions.len() == 0 {
        return "  (none)".to_owned();
    }
    let mut out: Vec<String> = Vec::new();
    let mut i: usize = 0;
    proof {
        assert(views(out@) =~= lines.take(0));
    }
    while i < sessions.len()
        invariant
            i <= sessions@.len(),
            all == session_views(sessions@),
            lines == Seq::new(all.len(), |i: int| session_line(i, all[i])),
            views(out@) == lines.take(i as int),
        decreases sessions@.len() - i,
    {
        let mut line = "  [".to_owned();
        line.append(u64_text(i as u64).as_str());
        line.append("] label=");
        line.append(str_or(&sessions[i].label, "<unlabeled>"));
        let ghost had = views(out@);
        out.push(line);
        proof {
            assert(all[i as int] == sessions@[i as int]@);
            assert(line@ == lines[i as int]);
            assert(views(out@) =~= had.push(line@));
            assert(views(out@) =~= lines.take(i + 1));
        }
        i += 1;
    }
    proof {
        assert(lines.take(i as int) =~= lines);
    }
    join_strings(&out, "\n")
}

/// What a successful `send_message` is answered.
pub open spec fn reply_text(target: Option<Seq<char>>) -> Seq<char> {
    match target {
        Some(t) => "delivered to sessions labelled '"@ + t + "'"@,
        None => "broadcast to all connected sessions"@,
    }
}

/// What a session sends: the parameters under its own label.
pub open spec fn sent_payload(
    label: Seq<char>,
    content: Seq<char>,
    target: Option<Seq<char>>,
    meta: Map<Seq<char>, Seq<char>>,
) -> PayloadView {
    PayloadView { content, target, meta, source: Some(label) }
}

/// Where what a session sends comes from.
pub open spec fn from_session(session_id: Option<Seq<char>>) -> ContextView {
    ContextView { via: Some(Via::Tool), sender_addr: None, sender_session_id: session_id }
}

/// The label in an optional query.
pub open spec fn label_in(query: Option<&str>) -> Option<Seq<char>> {
    match query {
        Some(q) => query_label(q@),
        None => None,
    }
}

/// The fields of a `session_connected` event.
pub open spec fn connected_fields(
    label: Option<Seq<char>>,
    active: nat,
    evicted: nat,
    session_id: Option<Seq<char>>,
) -> Map<Seq<char>, Seq<char>> {
    no_members().insert("label"@, json_or_null(label)).insert("active"@, decimal(active)).insert(
        "evicted"@,
        decimal(evicted),
    ).insert("session_id"@, json_or_null(session_id))
}

/// The fields of a `session_evicted` event.
pub open spec fn evicted_fields(label: Option<Seq<char>>, count: nat) -> Map<
    Seq<char>,
    Seq<char>,
> {
    no_members().insert("label"@, json_or_null(label)).insert("count"@, decimal(count))
}

/// What a session that joins changes besides the registry.
pub open spec fn joined_effects(
    label: Option<Seq<char>>,
    active: nat,
    evicted: nat,
    session_id: Option<Seq<char>>,
) -> EffectsView {
    let connected = UpdateView::SessionEvents { event: "connected"@, count: 1 };
    let gauge = UpdateView::ActiveSessions { count: active };
    let event = EventView {
        event: "session_connected"@,
        fields: connected_fields(label, active, evicted, session_id),
    };
    if evicted > 0 {
        EffectsView {
            metrics: seq![
                connected,
                UpdateView::SessionEvents { event: "evicted"@, count: evicted },
                gauge,
            ],
            events: seq![
                event,
                EventView {
                    event: "session_evicted"@,
                    fields: evicted_fields(label, evicted),
                },
            ],
        }
    } else {
        EffectsView { metrics: seq![connected, gauge], events: seq![event] }
    }
}

fn opt_field(o: &Option<String>) -> (r: Field)
    ensures
        r.text() == json_or_null(opt_view(*o)),
{
    match o {
        Some(s) => Field::Text(s.clone()),
        None => Field::Null,
    }
}

fn effects_of_joining(
    label: &Option<String>,
    active: usize,
    evicted: usize,
    session_id: &Option<String>,
) -> (r: Effects)
    ensures
        r@ == joined_effects(opt_view(*label), active as nat, evicted as nat, opt_view(*session_id)),
{
    let mut fields = new_object();
    put(&mut fields, "label", opt_field(label));
    put(&mut fields, "active", Field::Count(active as u64));
    put(&mut fields, "evicted", Field::Count(evicted as u64));
    put(&mut fields, "session_id", opt_field(session_id));
    let connected = LogEvent { event: "session_connected", fields };
    let r = if evicted > 0 {
        let mut fields = new_object();
        put(&mut fields, "label", opt_field(label));
        put(&mut fields, "count", Field::Count(evicted as u64));
        Effects {
            metrics: vec![
                session_update("connected", 1),
                session_update("evicted", evicted as u64),
                MetricUpdate::ActiveSessions(active as u64),
            ],
            events: vec![connected, LogEvent { event: "session_evicted", fields }],
        }
    } else {
        Effects {
            metrics: vec![
                session_update("connected", 1),
                MetricUpdate::ActiveSessions(active as u64),
            ],
            events: vec![connected],
        }
    };
    proof {
        assert(r@ =~= joined_effects(
            opt_view(*label),
            active as nat,
            evicted as nat,
            opt_view(*session_id),
        ));
    }
    r
}

impl SalonHandler {
    /// The handler of a session that is not initialized yet.
    pub fn new() -> (r: Self)
        ensures
            r.self_label is None,
            r.self_session_id is None,
    {
        SalonHandler { self_label: None, self_session_id: None }
    }

    /// Shows the salon's HTTP endpoints, active sessions, and message count.
    pub fn salon_status(&self, state: &SalonState) -> (r: String)
        ensures
            r@ == status_text(state@),
    {
        let port = u64_text(state.port as u64);
        let mut r = "Notify endpoint:  http://127.0.0.1:".to_owned();
        r.append(port.as_str());
        r.append("/notify\n");
        r.append("MCP endpoint:     http://127.0.0.1:");
        r.append(port.as_str());
        r.append("/mcp\n");
        r.append("Active sessions (");
        r.append(u64_text(state.sessions.len() as u64).as_str());
        r.append("):\n");
        r.append(list_sessions(&state.sessions).as_str());
        r.append("\nMessages relayed: ");
        r.append(u64_text(state.message_count).as_str());
        r
    }

    /// Takes in a `send_message` call. The sender is the session's own label,
    /// whatever the parameters say; a session without a label is turned down.
    pub fn send_message(&self, state: &mut SalonState, params: SendMessageParams) -> (r: Result<
        Outgoing,
        ToolError,
    >)
        ensures
            match self.self_label {
                Some(label) => {
                    &&& final(state)@ == (StateView {
                        message_count: next_count(old(state).message_count),
                        ..old(state)@
                    })
                    &&& r is Ok
                    &&& r->Ok_0.payload@ == (PayloadView {
                        content: params.content@,
                        target: opt_view(params.target),
                        meta: meta_members(params.meta),
                        source: Some(label@),
                    })
                    &&& r->Ok_0.ctx@ == (ContextView {
                        via: Some(Via::Tool),
                        sender_addr: None,
                        sender_session_id: opt_view(self.self_session_id),
                    })
                    &&& r->Ok_0.reply@ == reply_text(opt_view(params.target))
                    &&& r->Ok_0.payload@ == sent_payload(
                        label@,
                        params.content@,
                        opt_view(params.target),
                        meta_members(params.meta),
                    )
                    &&& r->Ok_0.ctx@ == from_session(opt_view(self.self_session_id))
                },
                None => {
                    &&& final(state)@ == old(state)@
                    &&& r is Err
                    &&& r->Err_0.code == -32602
                    &&& r->Err_0.message@
                        == "This session has no label. Reconnect with ?label=<name> on the /mcp URL before calling send_message."@
                },
            },
    {
        let source = match &self.self_label {
            Some(l) => l.clone(),
            None => {
                return Err(
                    ToolError {
                        code: -32602,
                        message: "This session has no label. Reconnect with ?label=<name> on the /mcp URL before calling send_message.",
                    },
                );
            },
        };
        state.count_message();
        let reply = match &params.target {
            Some(t) => {
                let mut reply = "delivered to sessions labelled '".to_owned();
                reply.append(t.as_str());
                reply.append("'");
                reply
            },
            None => "broadcast to all connected sessions".to_owned(),
        };
        Ok(
            Outgoing {
                payload: NotifyPayload {
                    content: params.content,
                    target: params.target,
                    meta: params.meta,
                    source: Some(source),
                },
                ctx: DeliveryContext {
                    via: Some(Via::Tool),
                    sender_addr: None,
                    sender_session_id: self.self_session_id.clone(),
                },
                reply,
            },
        )
    }

    /// Registers this session under an identifier.
    pub fn register(
        &mut self,
        state: &mut SalonState,
        query: Option<&str>,
        session_id: Option<String>,
        id: u128,
    ) -> (r: Registration)
        ensures
            opt_view(final(self).self_label) == label_in(query),
            final(self).self_session_id == session_id,
            final(state)@ == (StateView {
                sessions: joined(old(state)@.sessions, id, label_in(query)),
                ..old(state)@
            }),
            r.id == id,
            r.active == final(state)@.sessions.len(),
            r.evicted == old(state)@.sessions.len() + 1 - final(state)@.sessions.len(),
            r.effects@ == joined_effects(
                label_in(query),
                r.active as nat,
                r.evicted as nat,
                opt_view(session_id),
            ),
            old(state)@.wf() ==> final(state)@.wf(),
    {
        let label = match query {
            Some(q) => extract_label(q),
            None => None,
        };
        self.self_label = label.clone();
        self.self_session_id = session_id.clone();
        let evicted: usize = match &label {
            Some(l) => remove_label(&mut state.sessions, l.as_str()),
            None => 0,
        };
        let ghost rest = session_views(state.sessions@);
        let effects_label = label.clone();
        state.sessions.push(Session { id, label });
        proof {
            assert(session_views(state.sessions@) =~= rest.push(
                SessionView { id, label: label_in(query) },
            ));
            assert(state@ =~= (StateView {
                sessions: joined(old(state)@.sessions, id, label_in(query)),
                ..old(state)@
            }));
            if old(state)@.wf() {
                law_label_has_one_owner(old(state)@.sessions, id, label_in(query));
            }
        }
        let active = state.sessions.len();
        let effects = effects_of_joining(&effects_label, active, evicted, &session_id);
        Registration { id, active, evicted, effects }
    }

    /// Registers this session, once it is initialized, under a new identifier.
    pub fn on_initialized(
        &mut self,
        state: &mut SalonState,
        query: Option<&str>,
        session_id: Option<String>,
    ) -> (r: Registration)
        ensures
            is_v7(r.id),
            opt_view(final(self).self_label) == label_in(query),
            final(self).self_session_id == session_id,
            final(state)@ == (StateView {
                sessions: joined(old(state)@.sessions, r.id, label_in(query)),
                ..old(state)@
            }),
            r.active == final(state)@.sessions.len(),
            r.evicted == old(state)@.sessions.len() + 1 - final(state)@.sessions.len(),
            r.effects@ == joined_effects(
                label_in(query),
                r.active as nat,
                r.evicted as nat,
                opt_view(session_id),
            ),
            old(state)@.wf() ==> final(state)@.wf(),
    {
        let id = new_id();
        self.register(state, query, session_id, id)
    }
}

// ---------------------------------------------------------------------------
// Laws
// ---------------------------------------------------------------------------

/// The label of a query is what stands after the first `label=` that begins one
/// of its pairs, up to the next ampersand, as it stands.
pub proof fn law_first_label_is_taken(pair: Seq<char>, value: Seq<char>, rest: Seq<char>)
    requires
        lacks(pair, '&'),
        lacks(value, '&'),
        !"label="@.is_prefix_of(pair),
    ensures
        query_label("label="@ + value) == Some(value),
        query_label("label="@ + value + seq!['&'] + rest) == Some(value),
        query_label(pair + seq!['&'] + rest) == query_label(rest),
        query_label(pair) is None,
{
    reveal_strlit("label");
    reveal_strlit("label=");
    let named = "label="@ + value;
    assert(named =~= "label"@ + seq!['='] + value);
    assert(lacks("label"@, '='));
    law_parts_are_found("label"@, value, '=');
    assert(lacks(named, '&'));
    law_split_at_a_separator(named, rest, '&');
    let found = seq![named] + split(rest, '&');
    assert(found[0] == named);
    assert(split(named, '&')[0] == named);
    law_split_at_a_separator(pair, rest, '&');
    law_parted_at_the_first_separator(pair, '=');
    if let Some(p) = split_once(pair, '=') {
        if p.0 == "label"@ {
            assert(pair =~= "label="@ + p.1);
            assert("label="@.is_prefix_of(pair));
        }
    }
    let passed = seq![pair] + split(rest, '&');
    assert(passed[0] == pair);
    assert(passed.skip(1) =~= split(rest, '&'));
    let one = seq![pair];
    assert(one[0] == pair);
    assert(one.skip(1).len() == 0);
    assert(first_label(one.skip(1)) is None);
}

proof fn lemma_filter_all(sessions: Seq<SessionView>, l: Seq<char>)
    requires
        forall|i: int| 0 <= i < sessions.len() ==> (#[trigger] sessions[i]).label != Some(l),
    ensures
        sessions.filter(|s: SessionView| !wears(s, l)) == sessions,
    decreases sessions.len(),
{
    reveal(Seq::filter);
    if sessions.len() > 0 {
        lemma_filter_all(sessions.drop_last(), l);
        assert(sessions.drop_last().push(sessions.last()) =~= sessions);
    } else {
        assert(sessions.filter(|s: SessionView| !wears(s, l)) =~= sessions);
    }
}

proof fn lemma_filter_but_one(sessions: Seq<SessionView>, l: Seq<char>, k: int)
    requires
        0 <= k < sessions.len(),
        sessions[k].label == Some(l),
        forall|i: int|
            0 <= i < sessions.len() && i != k ==> (#[trigger] sessions[i]).label != Some(l),
    ensures
        sessions.filter(|s: SessionView| !wears(s, l)) == sessions.remove(k),
    decreases sessions.len(),
{
    reveal(Seq::filter);
    let rest = sessions.drop_last();
    if k == sessions.len() - 1 {
        lemma_filter_all(rest, l);
        assert(sessions.remove(k) =~= rest);
    } else {
        assert(rest[k] == sessions[k]);
        lemma_filter_but_one(rest, l, k);
        assert(rest.remove(k).push(sessions.last()) =~= sessions.remove(k));
    }
}

/// A newcomer is put at the end of the registry, under its own identifier and
/// label; the one session that wore its label, if there was one, leaves, and
/// every other stays where it was.
pub proof fn law_newcomer_takes_the_place(
    sessions: Seq<SessionView>,
    id: u128,
    label: Option<Seq<char>>,
    k: int,
)
    requires
        one_owner(sessions),
    ensures
        label is None ==> joined(sessions, id, label) == sessions.push(SessionView { id, label }),
        label is Some && (forall|i: int|
            0 <= i < sessions.len() ==> (#[trigger] sessions[i]).label != label) ==> joined(
            sessions,
            id,
            label,
        ) == sessions.push(SessionView { id, label }),
        label is Some && 0 <= k < sessions.len() && sessions[k].label == label ==> joined(
            sessions,
            id,
            label,
        ) == sessions.remove(k).push(SessionView { id, label }),
{
    if let Some(l) = label {
        if forall|i: int| 0 <= i < sessions.len() ==> (#[trigger] sessions[i]).label != label {
            lemma_filter_all(sessions, l);
        }
        if 0 <= k < sessions.len() && sessions[k].label == label {
            assert forall|i: int| 0 <= i < sessions.len() && i != k implies (
            #[trigger] sessions[i]).label != Some(l) by {
                if i < k {
                    assert(sessions[i].label is Some ==> sessions[i].label != sessions[k].label);
                } else {
                    assert(sessions[k].label is Some ==> sessions[k].label != sessions[i].label);
                }
            }
            lemma_filter_but_one(sessions, l, k);
        }
    }
}

/// Joining is told: one session has connected, so many have been evicted, where
/// any have, and so many are there; and an event carries the label, both numbers
/// and the transport's identifier of the session.
pub proof fn law_joining_is_told(
    label: Option<Seq<char>>,
    active: nat,
    evicted: nat,
    session_id: Option<Seq<char>>,
)
    ensures
        ({
            let e = joined_effects(label, active, evicted, session_id);
            &&& e.metrics.contains(UpdateView::SessionEvents { event: "connected"@, count: 1 })
            &&& e.metrics.contains(UpdateView::ActiveSessions { count: active })
            &&& evicted > 0 ==> e.metrics.contains(
                UpdateView::SessionEvents { event: "evicted"@, count: evicted },
            )
            &&& e.metrics.len() == if evicted > 0 {
                3nat
            } else {
                2nat
            }
            &&& e.events.len() == if evicted > 0 {
                2nat
            } else {
                1nat
            }
            &&& e.events[0].event == "session_connected"@
            &&& text_member(e.events[0].fields, "label"@) == label || label is None
            &&& label is None ==> e.events[0].fields["label"@] == "null"@
            &&& e.events[0].fields["active"@] == decimal(active)
            &&& e.events[0].fields["evicted"@] == decimal(evicted)
            &&& text_member(e.events[0].fields, "session_id"@) == session_id || session_id is None
            &&& session_id is None ==> e.events[0].fields["session_id"@] == "null"@
            &&& e.events[0].fields.dom() == set!["label"@, "active"@, "evicted"@, "session_id"@]
            &&& evicted > 0 ==> e.events[1].event == "session_evicted"@ && (text_member(
                e.events[1].fields,
                "label"@,
            ) == label || label is None) && e.events[1].fields["count"@] == decimal(evicted)
                && e.events[1].fields.dom() == set!["label"@, "count"@]
        }),
{
    reveal_strlit("label");
    reveal_strlit("active");
    reveal_strlit("evicted");
    reveal_strlit("session_id");
    reveal_strlit("count");
    assert("label"@.len() == 5);
    assert("count"@.len() == 5);
    assert("label"@[0] != "count"@[0]);
    assert("active"@.len() == 6);
    assert("evicted"@.len() == 7);
    assert("session_id"@.len() == 10);
    if let Some(l) = label {
        lemma_json_quote(l);
    }
    if let Some(s) = session_id {
        lemma_json_quote(s);
    }
    let e = joined_effects(label, active, evicted, session_id);
    if evicted > 0 {
        assert(e.metrics[0] == UpdateView::SessionEvents { event: "connected"@, count: 1 });
        assert(e.metrics[1] == UpdateView::SessionEvents { event: "evicted"@, count: evicted });
        assert(e.metrics[2] == UpdateView::ActiveSessions { count: active });
        assert(e.events[1].fields.dom() =~= set!["label"@, "count"@]);
    } else {
        assert(e.metrics[0] == UpdateView::SessionEvents { event: "connected"@, count: 1 });
        assert(e.metrics[1] == UpdateView::ActiveSessions { count: active });
    }
    assert(e.events[0].fields.dom() =~= set!["label"@, "active"@, "evicted"@, "session_id"@]);
}

/// Every message counts one, and the count starts again after the last 64-bit
/// number.
pub proof fn law_every_message_counts(n: u64)
    ensures
        next_count(n) as int == (n as int + 1) % 0x1_0000_0000_0000_0000,
{
}

/// A sender is told where the message goes: to the label that was asked for, or
/// to everybody.
pub proof fn law_reply_names_the_target(target: Seq<char>)
    ensures
        reply_text(Some(target)) == "delivered to sessions labelled '"@ + target + "'"@,
        reply_text(None) == "broadcast to all connected sessions"@,
{
}

/// The status lists every session by its number and its label, each on a line of
/// its own, in the order of the registry.
pub proof fn law_status_lists_the_sessions(sessions: Seq<SessionView>, s: SessionView)
    ensures
        session_lines(Seq::empty()) == "  (none)"@,
        s.label is Some ==> session_lines(seq![s]) == "  ["@ + "0"@ + "] label="@
            + s.label->Some_0,
        s.label is None ==> session_lines(seq![s]) == "  ["@ + "0"@ + "] label="@
            + "<unlabeled>"@,
        sessions.len() > 0 && s.label is Some ==> session_lines(sessions.push(s)) == session_lines(
            sessions,
        ) + "\n"@ + ("  ["@ + decimal(sessions.len()) + "] label="@ + s.label->Some_0),
        sessions.len() > 0 && s.label is None ==> session_lines(sessions.push(s)) == session_lines(
            sessions,
        ) + "\n"@ + ("  ["@ + decimal(sessions.len()) + "] label="@ + "<unlabeled>"@),
{
    let all = sessions.push(s);
    let lines = Seq::new(all.len(), |i: int| session_line(i, all[i]));
    let before = Seq::new(sessions.len(), |i: int| session_line(i, sessions[i]));
    assert(lines.drop_last() =~= before);
    assert(lines.last() == session_line(sessions.len() as int, s));
    let one = seq![s];
    let single = Seq::new(one.len(), |i: int| session_line(i, one[i]));
    assert(single[0] == session_line(0, s));
    reveal_strlit("0");
    assert(decimal(0) =~= "0"@);
}

/// The status gives the port twice, in the addresses of both endpoints, the
/// number of sessions, their list, and the number of messages.
#[verifier::spinoff_prover]
#[verifier::rlimit(40)]
pub proof fn law_status_tells_the_state(state: StateView)
    ensures
        shows(
            status_text(state),
            "Notify endpoint:  http://127.0.0.1:"@ + decimal(state.port as nat) + "/notify\n"@,
        ),
        shows(
            status_text(state),
            "MCP endpoint:     http://127.0.0.1:"@ + decimal(state.port as nat),
        ),
        shows(status_text(state), "Active sessions ("@ + decimal(state.sessions.len())),
        shows(status_text(state), "):\n"@ + session_lines(state.sessions)),
        shows(
            status_text(state),
            "\nMessages relayed: "@ + decimal(state.message_count as nat),
        ),
{
    lemma_shows();
}

/// A session that connects is labelled by its query alone.
pub proof fn law_label_comes_from_the_query(query: &str)
    ensures
        label_in(Some(query)) == query_label(query@),
        label_in(None) is None,
{
}

/// What a session sends goes out under its own label, whole, with the
/// transport's identifier of the session beside it.
pub proof fn law_sessions_send_as_themselves(
    label: Seq<char>,
    content: Seq<char>,
    target: Option<Seq<char>>,
    meta: Map<Seq<char>, Seq<char>>,
    session_id: Option<Seq<char>>,
)
    ensures
        sent_payload(label, content, target, meta).source == Some(label),
        sent_payload(label, content, target, meta).content == content,
        sent_payload(label, content, target, meta).target == target,
        sent_payload(label, content, target, meta).meta == meta,
        from_session(session_id).via == Some(Via::Tool),
        from_session(session_id).sender_addr is None,
        from_session(session_id).sender_session_id == session_id,
{
}

} // verus!
