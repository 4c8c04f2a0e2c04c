//! The lines of the append-only JSONL event log.
//!
//! One line of JSON per event (relayed message, session lifecycle, delivery
//! skip). Each line carries a `ts` and a `kind`. Without a path the log is off.
use crate::db::{MessageRow, MessageView, Via};
use crate::ids::{id_string, id_text};
use crate::json::{
    json_list, json_quote, law_object_text, lemma_list_one_line, lemma_quote_one_line, list_string,
    lists_keys, members, members_text, object_string, object_text, one_line, quote, value_string,
    Object,
};
use crate::log::{stamp, stamp_text};
use crate::text::{chars_of, lemma_join_shows, lemma_shows, opt_view, shows, string_of};
use crate::time::{rfc3339_opts, to_rfc3339_opts, utc_now, Precision, Timestamp};
use vstd::prelude::*;
use vstd::string::StringExecFns;

verus! {

/// An event to log.
pub struct LogEvent {
    /// A short stable identifier, such as `session_connected`.
    pub event: &'static str,
    /// What is merged into the top level of the line.
    pub fields: Object,
}

/// An event over characters.
#[verifier::ext_equal]
pub struct EventView {
    pub event: Seq<char>,
    pub fields: Map<Seq<char>, Seq<char>>,
}

impl View for LogEvent {
    type V = EventView;

    open spec fn view(&self) -> EventView {
        EventView { event: self.event@, fields: members(self.fields) }
    }
}

/// The views of a list of events.
pub open spec fn event_views(v: Seq<LogEvent>) -> Seq<EventView> {
    v.map_values(|e: LogEvent| e@)
}

/// The JSON text of an optional string.
pub open spec fn json_or_null(o: Option<Seq<char>>) -> Seq<char> {
    match o {
        Some(s) => json_quote(s),
        None => "null"@,
    }
}

fn quote_or_null(o: &Option<String>) -> (r: String)
    ensures
        r@ == json_or_null(opt_view(*o)),
{
    match o {
        Some(s) => quote(s.as_str()),
        None => "null".to_owned(),
    }
}

/// The line of a message: its kind, then the columns in the order of the table.
pub open spec fn message_line(m: MessageView) -> Seq<char> {
    "{\"kind\":\"message\",\"id\":"@ + json_quote(id_text(m.id)) + ",\"ts\":"@ + json_quote(
        rfc3339_opts(m.ts.secs, m.ts.nanos, false, true),
    ) + ",\"via\":"@ + json_quote(m.via.name()) + ",\"source\":"@ + json_quote(m.source)
        + ",\"target\":"@ + json_or_null(m.target) + ",\"content\":"@ + json_quote(m.content)
        + ",\"meta\":"@ + m.meta + ",\"delivered_to\":"@ + json_list(m.delivered_to)
        + ",\"delivery_errors\":"@ + json_list(m.delivery_errors) + ",\"sender_addr\":"@
        + json_or_null(m.sender_addr) + ",\"sender_session_id\":"@ + json_or_null(
        m.sender_session_id,
    ) + "}"@
}

/// What stands between the braces of an object's text, after a comma where
/// there is anything.
pub open spec fn merged(fields: Map<Seq<char>, Seq<char>>) -> Seq<char> {
    let text = object_text(fields);
    let inner = text.subrange(1, text.len() - 1);
    if inner.len() > 0 {
        ","@ + inner
    } else {
        Seq::empty()
    }
}

/// The line of an event: when it was, its kind and name, then its fields.
pub open spec fn event_line(ts: Timestamp, e: EventView) -> Seq<char> {
    "{\"ts\":"@ + json_quote(stamp_text(ts)) + ",\"kind\":\"event\",\"event\":"@ + json_quote(
        e.event,
    ) + merged(e.fields) + "}"@
}

proof fn lemma_literals()
    ensures
        one_line("{\"kind\":\"message\",\"id\":"@),
        one_line(",\"ts\":"@),
        one_line(",\"via\":"@),
        one_line(",\"source\":"@),
        one_line(",\"target\":"@),
        one_line(",\"content\":"@),
        one_line(",\"meta\":"@),
        one_line(",\"delivered_to\":"@),
        one_line(",\"delivery_errors\":"@),
        one_line(",\"sender_addr\":"@),
        one_line(",\"sender_session_id\":"@),
        one_line("}"@),
        one_line("null"@),
        one_line("{\"ts\":"@),
        one_line(",\"kind\":\"event\",\"event\":"@),
        one_line(","@),
{
    reveal_strlit("{\"kind\":\"message\",\"id\":");
    reveal_strlit(",\"ts\":");
    reveal_strlit(",\"via\":");
    reveal_strlit(",\"source\":");
    reveal_strlit(",\"target\":");
    reveal_strlit(",\"content\":");
    reveal_strlit(",\"meta\":");
    reveal_strlit(",\"delivered_to\":");
    reveal_strlit(",\"delivery_errors\":");
    reveal_strlit(",\"sender_addr\":");
    reveal_strlit(",\"sender_session_id\":");
    reveal_strlit("}");
    reveal_strlit("null");
    reveal_strlit("{\"ts\":");
    reveal_strlit(",\"kind\":\"event\",\"event\":");
    reveal_strlit(",");
}

proof fn lemma_or_null_one_line(o: Option<Seq<char>>)
    ensures
        one_line(json_or_null(o)),
{
    lemma_literals();
    if let Some(s) = o {
        lemma_quote_one_line(s);
    }
}

proof fn lemma_message_one_line(m: MessageView)
    requires
        one_line(m.meta),
    ensures
        one_line(message_line(m)),
{
    lemma_literals();
    lemma_quote_one_line(id_text(m.id));
    lemma_quote_one_line(rfc3339_opts(m.ts.secs, m.ts.nanos, false, true));
    lemma_quote_one_line(m.via.name());
    lemma_quote_one_line(m.source);
    lemma_or_null_one_line(m.target);
    lemma_quote_one_line(m.content);
    lemma_list_one_line(m.delivered_to);
    lemma_list_one_line(m.delivery_errors);
    lemma_or_null_one_line(m.sender_addr);
    lemma_or_null_one_line(m.sender_session_id);
}

proof fn lemma_event_one_line(ts: Timestamp, e: EventView)
    requires
        one_line(object_text(e.fields)),
    ensures
        one_line(event_line(ts, e)),
{
    lemma_literals();
    lemma_quote_one_line(stamp_text(ts));
    lemma_quote_one_line(e.event);
    let text = object_text(e.fields);
    let inner = text.subrange(1, text.len() - 1);
    assert forall|i: int| 0 <= i < inner.len() implies #[trigger] inner[i] != '\n' by {
        assert(text[i + 1] != '\n');
    }
}

/// Builds the line of a message. `ts` comes from the row itself, so that the
/// log and the store agree on when the message was processed.
pub fn message_text(row: &MessageRow) -> (r: String)
    requires
        row.ts.wf(),
    ensures
        r@ == message_line(row@),
        one_line(r@),
{
    let mut r = "{\"kind\":\"message\",\"id\":".to_owned();
    r.append(quote(id_string(row.id).as_str()).as_str());
    r.append(",\"ts\":");
    r.append(quote(to_rfc3339_opts(row.ts, Precision::Auto, true).as_str()).as_str());
    r.append(",\"via\":");
    r.append(quote(row.via.as_str()).as_str());
    r.append(",\"source\":");
    r.append(quote(row.source.as_str()).as_str());
    r.append(",\"target\":");
    r.append(quote_or_null(&row.target).as_str());
    r.append(",\"content\":");
    r.append(quote(row.content.as_str()).as_str());
    r.append(",\"meta\":");
    let meta = value_string(&row.meta);
    r.append(meta.as_str());
    r.append(",\"delivered_to\":");
    r.append(list_string(&row.delivered_to).as_str());
    r.append(",\"delivery_errors\":");
    r.append(list_string(&row.delivery_errors).as_str());
    r.append(",\"sender_addr\":");
    r.append(quote_or_null(&row.sender_addr).as_str());
    r.append(",\"sender_session_id\":");
    r.append(quote_or_null(&row.sender_session_id).as_str());
    r.append("}");
    proof {
        assert(one_line(row@.meta));
        lemma_message_one_line(row@);
    }
    r
}

fn merge(fields: &Object) -> (r: String)
    ensures
        r@ == merged(members(*fields)),
        one_line(object_text(members(*fields))),
{
    let cs = chars_of(object_string(fields).as_str());
    let n = cs.len();
    if n > 2 {
        let mut r = ",".to_owned();
        r.append(string_of(&cs, 1, n - 1).as_str());
        r
    } else {
        String::new()
    }
}

/// Builds the line of an event at a time.
pub fn event_text(ts: Timestamp, event: &str, fields: &Object) -> (r: String)
    requires
        ts.wf(),
    ensures
        r@ == event_line(ts, EventView { event: event@, fields: members(*fields) }),
        one_line(r@),
{
    let mut r = "{\"ts\":".to_owned();
    r.append(quote(stamp(ts).as_str()).as_str());
    r.append(",\"kind\":\"event\",\"event\":");
    r.append(quote(event).as_str());
    r.append(merge(fields).as_str());
    r.append("}");
    proof {
        lemma_event_one_line(ts, EventView { event: event@, fields: members(*fields) });
    }
    r
}

/// The event log: where it goes, if anywhere.
pub struct JsonlLogger {
    pub path: Option<String>,
}

impl JsonlLogger {
    /// The log to the path that the environment names, or none.
    pub fn from_env(path: Option<String>) -> (r: Self)
        ensures
            r.path == path,
    {
        JsonlLogger { path }
    }

    /// Whether lines are to be written.
    pub fn enabled(&self) -> (r: bool)
        ensures
            r == (self.path is Some),
    {
        self.path.is_some()
    }

    /// The line to write for a message, where lines are to be written. Content
    /// is included verbatim.
    pub fn message(&self, row: &MessageRow) -> (r: Option<String>)
        requires
            row.ts.wf(),
        ensures
            opt_view(r) == if self.path is Some {
                Some(message_line(row@))
            } else {
                None
            },
            r matches Some(line) ==> one_line(line@),
    {
        if !self.enabled() {
            return None;
        }
        Some(message_text(row))
    }

    /// The line to write for an event that happens now, where lines are to be
    /// written.
    pub fn event(&self, event: &str, fields: &Object) -> (r: Option<String>)
        ensures
            r is Some <==> self.path is Some,
            r matches Some(line) ==> one_line(line@),
            r matches Some(line) ==> exists|t: Timestamp|
                t.wf() && line@ == #[trigger] event_line(
                    t,
                    EventView { event: event@, fields: members(*fields) },
                ),
    {
        if !self.enabled() {
            return None;
        }
        let t = utc_now();
        let line = event_text(t, event, fields);
        proof {
            assert(t.wf() && line@ == event_line(
                t,
                EventView { event: event@, fields: members(*fields) },
            ));
        }
        Some(line)
    }
}

/// The line of a message says what it is, and carries its identifier, its time,
/// the way in, its source and its target, each under its name.
#[verifier::spinoff_prover]
#[verifier::rlimit(60)]
pub proof fn law_line_carries_the_message(m: MessageView)
    ensures
        shows(message_line(m), "{\"kind\":\"message\",\"id\":"@ + json_quote(id_text(m.id))),
        shows(
            message_line(m),
            ",\"ts\":"@ + json_quote(rfc3339_opts(m.ts.secs, m.ts.nanos, false, true)),
        ),
        m.via == Via::Notify ==> shows(message_line(m), ",\"via\":"@ + json_quote("notify"@)),
        m.via == Via::Tool ==> shows(message_line(m), ",\"via\":"@ + json_quote("tool"@)),
        shows(message_line(m), ",\"source\":"@ + json_quote(m.source)),
        m.target is Some ==> shows(
            message_line(m),
            ",\"target\":"@ + json_quote(m.target->Some_0),
        ),
        m.target is None ==> shows(message_line(m), ",\"target\":"@ + "null"@),
{
    lemma_shows();
}

/// The line of a message carries the rest of it too: what was said, the meta,
/// whom it reached and whom not, and where it came from.
#[verifier::spinoff_prover]
#[verifier::rlimit(60)]
pub proof fn law_line_carries_the_content(m: MessageView)
    ensures
        shows(message_line(m), ",\"content\":"@ + json_quote(m.content)),
        shows(message_line(m), ",\"meta\":"@ + m.meta),
        shows(message_line(m), ",\"delivered_to\":"@ + json_list(m.delivered_to)),
        shows(message_line(m), ",\"delivery_errors\":"@ + json_list(m.delivery_errors)),
        m.sender_addr is Some ==> shows(
            message_line(m),
            ",\"sender_addr\":"@ + json_quote(m.sender_addr->Some_0),
        ),
        m.sender_addr is None ==> shows(message_line(m), ",\"sender_addr\":"@ + "null"@),
        m.sender_session_id is Some ==> shows(
            message_line(m),
            ",\"sender_session_id\":"@ + json_quote(m.sender_session_id->Some_0),
        ),
        m.sender_session_id is None ==> shows(
            message_line(m),
            ",\"sender_session_id\":"@ + "null"@,
        ),
{
    lemma_shows();
}

/// The line of an event carries its time, its name and every one of its fields.
pub proof fn law_line_carries_the_event(
    ts: Timestamp,
    e: EventView,
    keys: Seq<Seq<char>>,
    i: int,
)
    requires
        lists_keys(keys, e.fields),
    ensures
        shows(
            event_line(ts, e),
            "{\"ts\":"@ + json_quote(rfc3339_opts(ts.secs, ts.nanos, true, true)),
        ),
        shows(
            event_line(ts, e),
            ",\"kind\":\"event\",\"event\":"@ + json_quote(e.event),
        ),
        0 <= i < keys.len() ==> shows(
            event_line(ts, e),
            json_quote(keys[i]) + seq![':'] + e.fields[keys[i]],
        ),
{
    lemma_shows();
    law_object_text(keys, e.fields);
    let parts = keys.map_values(|k: Seq<char>| json_quote(k) + seq![':'] + e.fields[k]);
    let text = object_text(e.fields);
    let inner = text.subrange(1, text.len() - 1);
    assert(inner =~= members_text(keys, e.fields));
    if 0 <= i < keys.len() {
        lemma_join_shows(parts, seq![','], i);
        assert(parts[i] == json_quote(keys[i]) + seq![':'] + e.fields[keys[i]]);
        assert(parts[i].len() > 0);
        assert(shows(inner, parts[i]));
        assert(inner.len() > 0);
        assert(merged(e.fields) == ","@ + inner);
        assert(shows(merged(e.fields), parts[i]));
    }
}

} // verus!
