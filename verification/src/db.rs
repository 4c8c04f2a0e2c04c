//! What is stored of a message, and the statements that store and find it.
//!
//! Every delivery produces one row. A row goes into the table as text, and the
//! text is read back into a row.
use crate::ids::{id_string, id_text, parse_id, parsed_id};
use crate::json::{
    copy_value, json_list, json_value, list_string, object_text, parse_list, parse_value, string_list,
    readable_members, text_less, value_string, value_text,
};
use crate::text::{
    lemma_shows, opt_view, same, shows, views,
};
use crate::time::{
    in_four_digit_years, parse_rfc3339, rfc3339, rfc3339_time, to_rfc3339, Timestamp,
};
use vstd::prelude::*;
use vstd::string::StringExecFns;

verus! {

// ---------------------------------------------------------------------------
// Messages
// ---------------------------------------------------------------------------

/// How a message came in.
#[derive(Debug, Clone, Copy, PartialEq, Eq, Structural)]
pub enum Via {
    /// External HTTP webhook: `POST /notify?label=...`
    Notify,
    /// MCP `send_message` tool invoked from a connected session.
    Tool,
}

impl Via {
    /// The stored name.
    pub open spec fn name(self) -> Seq<char> {
        match self {
            Via::Notify => "notify"@,
            Via::Tool => "tool"@,
        }
    }

    /// The stored name.
    pub fn as_str(&self) -> (r: &'static str)
        ensures
            r@ == self.name(),
    {
        match self {
            Via::Notify => "notify",
            Via::Tool => "tool",
        }
    }
}

/// A stored message.
#[derive(Debug)]
pub struct MessageRow {
    pub id: u128,
    pub ts: Timestamp,
    pub via: Via,
    pub source: String,
    pub target: Option<String>,
    pub content: String,
    /// The full meta object that went into the outgoing notification
    /// (caller-supplied keys plus the injected ones).
    pub meta: serde_json::Value,
    /// Labels of sessions that received this notification.
    pub delivered_to: Vec<String>,
    /// Labels of sessions that the notification did not reach.
    pub delivery_errors: Vec<String>,
    /// Remote socket addr of the `POST /notify` caller.
    /// `None` when the notification originated from an in-session tool call.
    pub sender_addr: Option<String>,
    /// MCP session id of the caller. Populated only for tool-originated sends.
    pub sender_session_id: Option<String>,
}

/// A stored message over characters.
#[verifier::ext_equal]
pub struct MessageView {
    pub id: u128,
    pub ts: Timestamp,
    pub via: Via,
    pub source: Seq<char>,
    pub target: Option<Seq<char>>,
    pub content: Seq<char>,
    pub meta: Seq<char>,
    pub delivered_to: Seq<Seq<char>>,
    pub delivery_errors: Seq<Seq<char>>,
    pub sender_addr: Option<Seq<char>>,
    pub sender_session_id: Option<Seq<char>>,
}

impl View for MessageRow {
    type V = MessageView;

    open spec fn view(&self) -> MessageView {
        MessageView {
            id: self.id,
            ts: self.ts,
            via: self.via,
            source: self.source@,
            target: opt_view(self.target),
            content: self.content@,
            meta: value_text(self.meta),
            delivered_to: views(self.delivered_to@),
            delivery_errors: views(self.delivery_errors@),
            sender_addr: opt_view(self.sender_addr),
            sender_session_id: opt_view(self.sender_session_id),
        }
    }
}

impl Clone for MessageRow {
    fn clone(&self) -> (r: Self)
        ensures
            r@ == self@,
    {
        let r = MessageRow {
            id: self.id,
            ts: self.ts,
            via: self.via,
            source: self.source.clone(),
            target: self.target.clone(),
            content: self.content.clone(),
            meta: copy_value(&self.meta),
            delivered_to: self.delivered_to.clone(),
            delivery_errors: self.delivery_errors.clone(),
            sender_addr: self.sender_addr.clone(),
            sender_session_id: self.sender_session_id.clone(),
        };
        proof {
            assert(r@ =~= self@);
        }
        r
    }
}

/// The columns of a message, as the table holds them.
#[derive(Debug, Clone)]
pub struct StoredRow {
    pub id: String,
    pub ts: String,
    pub via: String,
    pub source: String,
    pub target: Option<String>,
    pub content: String,
    pub meta: String,
    pub delivered_to: String,
    pub delivery_errors: String,
    pub sender_addr: Option<String>,
    pub sender_session_id: Option<String>,
}

/// The columns of a message over characters.
#[verifier::ext_equal]
pub struct StoredView {
    pub id: Seq<char>,
    pub ts: Seq<char>,
    pub via: Seq<char>,
    pub source: Seq<char>,
    pub target: Option<Seq<char>>,
    pub content: Seq<char>,
    pub meta: Seq<char>,
    pub delivered_to: Seq<char>,
    pub delivery_errors: Seq<char>,
    pub sender_addr: Option<Seq<char>>,
    pub sender_session_id: Option<Seq<char>>,
}

impl View for StoredRow {
    type V = StoredView;

    open spec fn view(&self) -> StoredView {
        StoredView {
            id: self.id@,
            ts: self.ts@,
            via: self.via@,
            source: self.source@,
            target: opt_view(self.target),
            content: self.content@,
            meta: self.meta@,
            delivered_to: self.delivered_to@,
            delivery_errors: self.delivery_errors@,
            sender_addr: opt_view(self.sender_addr),
            sender_session_id: opt_view(self.sender_session_id),
        }
    }
}

impl MessageView {
    /// The columns that a message is stored in.
    pub open spec fn stored(self) -> StoredView {
        StoredView {
            id: id_text(self.id),
            ts: self.ts.rfc3339_text(),
            via: self.via.name(),
            source: self.source,
            target: self.target,
            content: self.content,
            meta: self.meta,
            delivered_to: json_list(self.delivered_to),
            delivery_errors: json_list(self.delivery_errors),
            sender_addr: self.sender_addr,
            sender_session_id: self.sender_session_id,
        }
    }

    /// Whether the stored columns can be read back without loss: the time lies
    /// in the years that RFC 3339 can write, and the meta object is one that the
    /// JSON reader gives back as it was written.
    pub open spec fn reads_back(self) -> bool {
        &&& self.ts.wf()
        &&& in_four_digit_years(self.ts.secs as int)
        &&& json_value(self.meta) == Some(self.meta) || is_readable_object(self.meta)
    }
}

/// Whether a text is that of a JSON object whose members are all given back as
/// they were written.
pub open spec fn is_readable_object(text: Seq<char>) -> bool {
    exists|m: Map<Seq<char>, Seq<char>>| readable_members(m) && text == #[trigger] object_text(m)
}

/// Whether the stored text of a message's time comes before or after that of
/// any other as the times do, in the years that RFC 3339 can write.
pub open spec fn sorts_by_time(m: MessageView) -> bool {
    is_writable(m.ts) ==> forall|o: MessageView|
        is_writable(o.ts) ==> (text_less((#[trigger] o.stored()).ts, m.stored().ts)
            <==> o.ts.before(m.ts)) && (text_less(m.stored().ts, o.stored().ts) <==> m.ts.before(
            o.ts,
        ))
}

/// Turns a message into the columns it is stored in.
pub fn message_to_row(row: &MessageRow) -> (r: StoredRow)
    requires
        row.ts.wf(),
    ensures
        r@ == row@.stored(),
        sorts_by_time(row@),
{
    let ts = to_rfc3339(row.ts);
    proof {
        assert(ts@ == row@.ts.rfc3339_text());
        assert(row@.stored().ts == ts@);
        assert forall|o: MessageView| is_writable(o.ts) && is_writable(row@.ts) implies (text_less(
            (#[trigger] o.stored()).ts,
            row@.stored().ts,
        ) <==> o.ts.before(row@.ts)) && (text_less(row@.stored().ts, o.stored().ts)
            <==> row@.ts.before(o.ts)) by {
            assert(o.stored().ts == o.ts.rfc3339_text());
        }
    }
    StoredRow {
        id: id_string(row.id),
        ts,
        via: row.via.as_str().to_owned(),
        source: row.source.clone(),
        target: row.target.clone(),
        content: row.content.clone(),
        meta: value_string(&row.meta),
        delivered_to: list_string(&row.delivered_to),
        delivery_errors: list_string(&row.delivery_errors),
        sender_addr: row.sender_addr.clone(),
        sender_session_id: row.sender_session_id.clone(),
    }
}

/// Why stored columns are no message.
#[derive(Debug)]
pub enum DecodeError {
    /// The identifier is no UUID.
    Id(uuid::Error),
    /// The time is not in RFC 3339 form.
    Ts(chrono::ParseError),
    /// The way in is neither `notify` nor `tool`.
    Via(String),
    /// The meta column is not JSON.
    Meta(serde_json::Error),
    /// The list of receivers is no JSON list of strings.
    DeliveredTo(serde_json::Error),
    /// The list of failures is no JSON list of strings.
    DeliveryErrors(serde_json::Error),
}

/// Which column stands in the way.
pub enum Fault {
    Id,
    Ts,
    Via(Seq<char>),
    Meta,
    DeliveredTo,
    DeliveryErrors,
}

impl View for DecodeError {
    type V = Fault;

    open spec fn view(&self) -> Fault {
        match *self {
            DecodeError::Id(_) => Fault::Id,
            DecodeError::Ts(_) => Fault::Ts,
            DecodeError::Via(v) => Fault::Via(v@),
            DecodeError::Meta(_) => Fault::Meta,
            DecodeError::DeliveredTo(_) => Fault::DeliveredTo,
            DecodeError::DeliveryErrors(_) => Fault::DeliveryErrors,
        }
    }
}

/// The way in that a stored name stands for.
pub open spec fn via_of(name: Seq<char>) -> Option<Via> {
    if name == "notify"@ {
        Some(Via::Notify)
    } else if name == "tool"@ {
        Some(Via::Tool)
    } else {
        None
    }
}

/// Each way in is found again under its stored name.
pub proof fn law_via_names(via: Via)
    ensures
        via_of(via.name()) == Some(via),
{
    reveal_strlit("notify");
    reveal_strlit("tool");
    assert("notify"@.len() != "tool"@.len());
}

impl StoredView {
    /// The message that the columns hold, or the first column, in the order of
    /// the table, that stands in the way of one.
    pub open spec fn message(self) -> Result<MessageView, Fault> {
        if parsed_id(self.id) is None {
            Err(Fault::Id)
        } else if rfc3339_time(self.ts) is None {
            Err(Fault::Ts)
        } else if via_of(self.via) is None {
            Err(Fault::Via(self.via))
        } else if json_value(self.meta) is None {
            Err(Fault::Meta)
        } else if string_list(self.delivered_to) is None {
            Err(Fault::DeliveredTo)
        } else if string_list(self.delivery_errors) is None {
            Err(Fault::DeliveryErrors)
        } else {
            let t = rfc3339_time(self.ts)->Some_0;
            Ok(
                MessageView {
                    id: parsed_id(self.id)->Some_0,
                    ts: Timestamp { secs: t.0, nanos: t.1 },
                    via: via_of(self.via)->Some_0,
                    source: self.source,
                    target: self.target,
                    content: self.content,
                    meta: json_value(self.meta)->Some_0,
                    delivered_to: string_list(self.delivered_to)->Some_0,
                    delivery_errors: string_list(self.delivery_errors)->Some_0,
                    sender_addr: self.sender_addr,
                    sender_session_id: self.sender_session_id,
                },
            )
        }
    }
}

/// Reads stored columns back into a message. What was stored of a message that
/// can be read back without loss is read back as that message.
pub fn row_to_message(row: &StoredRow) -> (r: Result<MessageRow, DecodeError>)
    ensures
        match r {
            Ok(m) => row@.message() == Ok::<MessageView, Fault>(m@) && m.ts.wf(),
            Err(e) => row@.message() == Err::<MessageView, Fault>(e@),
        },
        forall|m: MessageView|
            m.reads_back() && row@ == #[trigger] m.stored() ==> r is Ok && r->Ok_0@ == m,
{
    let id = match parse_id(row.id.as_str()) {
        Ok(id) => id,
        Err(e) => {
            return Err(DecodeError::Id(e));
        },
    };
    let ts = match parse_rfc3339(row.ts.as_str()) {
        Ok(t) => t,
        Err(e) => {
            return Err(DecodeError::Ts(e));
        },
    };
    let via = if same(row.via.as_str(), "notify") {
        Via::Notify
    } else if same(row.via.as_str(), "tool") {
        Via::Tool
    } else {
        return Err(DecodeError::Via(row.via.clone()));
    };
    let meta = match parse_value(row.meta.as_str()) {
        Ok(m) => m,
        Err(e) => {
            return Err(DecodeError::Meta(e));
        },
    };
    let delivered_to = match parse_list(row.delivered_to.as_str()) {
        Ok(v) => v,
        Err(e) => {
            return Err(DecodeError::DeliveredTo(e));
        },
    };
    let delivery_errors = match parse_list(row.delivery_errors.as_str()) {
        Ok(v) => v,
        Err(e) => {
            return Err(DecodeError::DeliveryErrors(e));
        },
    };
    let message = MessageRow {
        id,
        ts,
        via,
        source: row.source.clone(),
        target: row.target.clone(),
        content: row.content.clone(),
        meta,
        delivered_to,
        delivery_errors,
        sender_addr: row.sender_addr.clone(),
        sender_session_id: row.sender_session_id.clone(),
    };
    proof {
        assert forall|m: MessageView| m.reads_back() && row@ == #[trigger] m.stored() implies
            message@ == m by {
            assert(row@.id == id_text(m.id));
            assert(row@.ts == m.ts.rfc3339_text());
            assert(row@.via == m.via.name());
            assert(row@.delivered_to == json_list(m.delivered_to));
            assert(row@.delivery_errors == json_list(m.delivery_errors));
            assert(row@.meta == m.meta);
            if is_readable_object(m.meta) {
                let o = choose|o: Map<Seq<char>, Seq<char>>|
                    readable_members(o) && m.meta == #[trigger] object_text(o);
                assert(row.meta@ == object_text(o));
            }
            law_via_names(m.via);
            assert(message@ =~= m);
        }
    }
    Ok(message)
}

/// The fault of the first of some stored rows that is no message, if one is.
pub open spec fn first_fault(rows: Seq<StoredView>) -> Option<Fault>
    decreases rows.len(),
{
    if rows.len() == 0 {
        None
    } else {
        match rows[0].message() {
            Ok(_) => first_fault(rows.skip(1)),
            Err(e) => Some(e),
        }
    }
}

/// Reads stored rows back into messages, unless one of them is none.
pub fn rows_to_messages(rows: &Vec<StoredRow>) -> (r: Result<Vec<MessageRow>, DecodeError>)
    ensures
        match r {
            Ok(ms) => {
                &&& first_fault(rows@.map_values(|s: StoredRow| s@)) is None
                &&& ms@.len() == rows@.len()
                &&& forall|i: int|
                    0 <= i < ms@.len() ==> rows@[i]@.message() == Ok::<MessageView, Fault>(
                        (#[trigger] ms@[i])@,
                    ) && ms@[i].ts.wf()
            },
            Err(e) => first_fault(rows@.map_values(|s: StoredRow| s@)) == Some(e@),
        },
{
    let ghost all = rows@.map_values(|s: StoredRow| s@);
    let mut out: Vec<MessageRow> = Vec::new();
    let mut i: usize = 0;
    proof {
        assert(all.skip(0) =~= all);
    }
    while i < rows.len()
        invariant
            i <= rows@.len(),
            out@.len() == i,
            all == rows@.map_values(|s: StoredRow| s@),
            first_fault(all) == first_fault(all.skip(i as int)),
            forall|j: int|
                0 <= j < i ==> rows@[j]@.message() == Ok::<MessageView, Fault>(
                    (#[trigger] out@[j])@,
                ) && out@[j].ts.wf(),
        decreases rows@.len() - i,
    {
        proof {
            assert(all.skip(i as int)[0] == rows@[i as int]@);
            assert(all.skip(i as int).skip(1) =~= all.skip(i + 1));
        }
        match row_to_message(&rows[i]) {
            Ok(m) => {
                out.push(m);
            },
            Err(e) => {
                return Err(e);
            },
        }
        i += 1;
    }
    Ok(out)
}

// ---------------------------------------------------------------------------
// Statements
// ---------------------------------------------------------------------------

/// A value bound to a placeholder.
#[derive(Debug, Clone)]
pub enum Bind {
    Text(String),
    Int(i64),
    Null,
}

/// A bound value over characters.
pub enum BindView {
    Text(Seq<char>),
    Int(int),
    Null,
}

impl View for Bind {
    type V = BindView;

    open spec fn view(&self) -> BindView {
        match *self {
            Bind::Text(s) => BindView::Text(s@),
            Bind::Int(n) => BindView::Int(n as int),
            Bind::Null => BindView::Null,
        }
    }
}

/// An SQL statement with the values for its placeholders, in their order.
#[derive(Debug, Clone)]
pub struct Statement {
    pub sql: String,
    pub binds: Vec<Bind>,
}

/// A statement over characters.
#[verifier::ext_equal]
pub struct StatementView {
    pub sql: Seq<char>,
    pub binds: Seq<BindView>,
}

impl View for Statement {
    type V = StatementView;

    open spec fn view(&self) -> StatementView {
        StatementView { sql: self.sql@, binds: bind_views(self.binds@) }
    }
}

/// The views of a list of bound values.
pub open spec fn bind_views(v: Seq<Bind>) -> Seq<BindView> {
    v.map_values(|b: Bind| b@)
}

/// Texts as bound values.
pub open spec fn text_binds(v: Seq<Seq<char>>) -> Seq<BindView> {
    v.map_values(|s: Seq<char>| BindView::Text(s))
}

/// An optional text as a bound value.
pub open spec fn opt_bind(o: Option<Seq<char>>) -> BindView {
    match o {
        Some(s) => BindView::Text(s),
        None => BindView::Null,
    }
}

fn bind_opt(o: &Option<String>) -> (r: Bind)
    ensures
        r@ == opt_bind(opt_view(*o)),
{
    match o {
        Some(s) => Bind::Text(s.clone()),
        None => Bind::Null,
    }
}

fn statement(sql: &str) -> (r: Statement)
    ensures
        r@ == (StatementView { sql: sql@, binds: Seq::empty() }),
{
    let r = Statement { sql: sql.to_owned(), binds: Vec::new() };
    proof {
        assert(bind_views(r.binds@) =~= Seq::empty());
    }
    r
}

/// The statements that make the table and its indexes, where they are not
/// there yet.
pub open spec fn schema() -> Seq<StatementView> {
    seq![
        StatementView {
            sql: "CREATE TABLE IF NOT EXISTS messages (id TEXT PRIMARY KEY, ts TEXT NOT NULL, via TEXT NOT NULL, source TEXT NOT NULL, target TEXT, content TEXT NOT NULL, meta TEXT NOT NULL, delivered_to TEXT NOT NULL, delivery_errors TEXT NOT NULL, sender_addr TEXT, sender_session_id TEXT)"@,
            binds: Seq::empty(),
        },
        StatementView {
            sql: "CREATE INDEX IF NOT EXISTS idx_messages_ts ON messages(ts)"@,
            binds: Seq::empty(),
        },
        StatementView {
            sql: "CREATE INDEX IF NOT EXISTS idx_messages_source ON messages(source)"@,
            binds: Seq::empty(),
        },
        StatementView {
            sql: "CREATE INDEX IF NOT EXISTS idx_messages_target ON messages(target)"@,
            binds: Seq::empty(),
        },
    ]
}

/// The statements that make the table and its indexes.
pub fn initialize_schema() -> (r: Vec<Statement>)
    ensures
        r@.map_values(|s: Statement| s@) == schema(),
{
    let r = vec![
        statement(
            "CREATE TABLE IF NOT EXISTS messages (id TEXT PRIMARY KEY, ts TEXT NOT NULL, via TEXT NOT NULL, source TEXT NOT NULL, target TEXT, content TEXT NOT NULL, meta TEXT NOT NULL, delivered_to TEXT NOT NULL, delivery_errors TEXT NOT NULL, sender_addr TEXT, sender_session_id TEXT)",
        ),
        statement("CREATE INDEX IF NOT EXISTS idx_messages_ts ON messages(ts)"),
        statement("CREATE INDEX IF NOT EXISTS idx_messages_source ON messages(source)"),
        statement("CREATE INDEX IF NOT EXISTS idx_messages_target ON messages(target)"),
    ];
    proof {
        assert(r@.map_values(|s: Statement| s@) =~= schema());
    }
    r
}

/// The statement that stores columns.
pub open spec fn insert_statement(s: StoredView) -> StatementView {
    StatementView {
        sql: "INSERT INTO messages (id, ts, via, source, target, content, meta, delivered_to, delivery_errors, sender_addr, sender_session_id) VALUES ("@
            + "?, ?, ?, ?, ?, ?, ?, ?, ?, ?, ?)"@,
        binds: seq![
            BindView::Text(s.id),
            BindView::Text(s.ts),
            BindView::Text(s.via),
            BindView::Text(s.source),
            opt_bind(s.target),
            BindView::Text(s.content),
            BindView::Text(s.meta),
            BindView::Text(s.delivered_to),
            BindView::Text(s.delivery_errors),
            opt_bind(s.sender_addr),
            opt_bind(s.sender_session_id),
        ],
    }
}

/// The statement that stores a message.
pub fn insert_message(row: &MessageRow) -> (r: Statement)
    requires
        row.ts.wf(),
    ensures
        r@ == insert_statement(row@.stored()),
        sorts_by_time(row@),
{
    let stored = message_to_row(row);
    let mut sql =
        "INSERT INTO messages (id, ts, via, source, target, content, meta, delivered_to, delivery_errors, sender_addr, sender_session_id) VALUES (".to_owned();
    sql.append("?, ?, ?, ?, ?, ?, ?, ?, ?, ?, ?)");
    let target = bind_opt(&stored.target);
    let sender_addr = bind_opt(&stored.sender_addr);
    let sender_session_id = bind_opt(&stored.sender_session_id);
    let r = Statement {
        sql,
        binds: vec![
            Bind::Text(stored.id),
            Bind::Text(stored.ts),
            Bind::Text(stored.via),
            Bind::Text(stored.source),
            target,
            Bind::Text(stored.content),
            Bind::Text(stored.meta),
            Bind::Text(stored.delivered_to),
            Bind::Text(stored.delivery_errors),
            sender_addr,
            sender_session_id,
        ],
    };
    proof {
        assert(r@ =~= insert_statement(row@.stored()));
    }
    r
}

/// What opening the database takes.
pub struct OpenPlan {
    /// Whether an empty file is to be made first.
    pub create_file: bool,
    pub max_connections: u32,
    /// What to run on the open database.
    pub statements: Vec<Statement>,
}

/// Whether an empty file is to be made for the database at a path.
pub open spec fn makes_file(path: Seq<char>, exists: bool) -> bool {
    path != ":memory:"@ && !exists
}

/// Plans how to open the database at a path where a file exists or does not.
pub fn open(db_path: &str, exists: bool) -> (r: OpenPlan)
    ensures
        r.create_file == (db_path@ != ":memory:"@ && !exists),
        r.create_file == makes_file(db_path@, exists),
        r.max_connections == 5,
        r.statements@.map_values(|s: Statement| s@) == schema(),
{
    OpenPlan {
        create_file: !same(db_path, ":memory:") && !exists,
        max_connections: 5,
        statements: initialize_schema(),
    }
}

// ---------------------------------------------------------------------------
// Filters
// ---------------------------------------------------------------------------

/// Filters for the list of messages.
#[derive(Debug)]
pub struct ListFilters {
    /// One-directional filter: sender label.
    pub source: Option<String>,
    /// One-directional filter: target label.
    pub target: Option<String>,
    /// Conversation filter. Each participant (if set) must be either source
    /// or target of the message. With both set this selects every message
    /// exchanged between the two participants, in either direction.
    pub participant_a: Option<String>,
    pub participant_b: Option<String>,
    /// Labels to hide: messages that have one as source or target.
    pub exclude: Vec<String>,
    pub since: Option<Timestamp>,
    pub until: Option<Timestamp>,
    pub limit: i64,
    pub offset: i64,
}

impl Default for ListFilters {
    /// No filters, and no rows.
    fn default() -> (r: Self)
        ensures
            r.source is None,
            r.target is None,
            r.participant_a is None,
            r.participant_b is None,
            r.exclude@.len() == 0,
            r.since is None,
            r.until is None,
            r.limit == 0,
            r.offset == 0,
    {
        ListFilters {
            source: None,
            target: None,
            participant_a: None,
            participant_b: None,
            exclude: Vec::new(),
            since: None,
            until: None,
            limit: 0,
            offset: 0,
        }
    }
}

impl ListFilters {
    /// The bounds, where there are any, are times.
    pub open spec fn wf(self) -> bool {
        &&& self.since matches Some(t) ==> t.wf()
        &&& self.until matches Some(t) ==> t.wf()
    }
}

/// One condition on a message.
pub enum Condition {
    SourceIs(Seq<char>),
    TargetIs(Seq<char>),
    Involves(Seq<char>),
    Hides(Seq<char>),
    NotBefore(Seq<char>),
    NotAfter(Seq<char>),
}

impl Condition {
    /// What the condition says of a stored message. Times are compared as the
    /// text they are stored in.
    pub open spec fn holds(self, m: StoredView) -> bool {
        match self {
            Condition::SourceIs(l) => m.source == l,
            Condition::TargetIs(l) => m.target == Some(l),
            Condition::Involves(l) => m.source == l || m.target == Some(l),
            Condition::Hides(l) => m.source != l && m.target != Some(l),
            Condition::NotBefore(t) => !text_less(m.ts, t),
            Condition::NotAfter(t) => !text_less(t, m.ts),
        }
    }

    /// How the condition is written.
    pub open spec fn sql(self) -> Seq<char> {
        match self {
            Condition::SourceIs(_) => " AND source = ?"@,
            Condition::TargetIs(_) => " AND target = ?"@,
            Condition::Involves(_) => " AND (source = ? OR target = ?)"@,
            Condition::Hides(_) => " AND source <> ? AND (target IS NULL OR target <> ?)"@,
            Condition::NotBefore(_) => " AND ts >= ?"@,
            Condition::NotAfter(_) => " AND ts <= ?"@,
        }
    }

    /// What is bound for the condition.
    pub open spec fn binds(self) -> Seq<Seq<char>> {
        match self {
            Condition::SourceIs(l) => seq![l],
            Condition::TargetIs(l) => seq![l],
            Condition::Involves(l) => seq![l, l],
            Condition::Hides(l) => seq![l, l],
            Condition::NotBefore(t) => seq![t],
            Condition::NotAfter(t) => seq![t],
        }
    }
}

/// No condition, or one.
pub open spec fn condition_if(set: bool, c: Condition) -> Seq<Condition> {
    if set {
        seq![c]
    } else {
        Seq::empty()
    }
}

impl ListFilters {
    /// The conditions that the filters stand for, in order.
    pub open spec fn conditions(self) -> Seq<Condition> {
        condition_if(self.source is Some, Condition::SourceIs(self.source->Some_0@))
            + condition_if(self.target is Some, Condition::TargetIs(self.target->Some_0@))
            + condition_if(
            self.participant_a is Some,
            Condition::Involves(self.participant_a->Some_0@),
        ) + condition_if(
            self.participant_b is Some,
            Condition::Involves(self.participant_b->Some_0@),
        ) + self.exclude@.map_values(|l: String| Condition::Hides(l@)) + condition_if(
            self.since is Some,
            Condition::NotBefore(self.since->Some_0.rfc3339_text()),
        ) + condition_if(
            self.until is Some,
            Condition::NotAfter(self.until->Some_0.rfc3339_text()),
        )
    }

    /// Whether a stored message passes every filter.
    pub open spec fn selects(self, m: StoredView) -> bool {
        forall|i: int|
            0 <= i < self.conditions().len() ==> (#[trigger] self.conditions()[i]).holds(m)
    }
}

/// Whether a time lies in the years that RFC 3339 can write.
pub open spec fn is_writable(t: Timestamp) -> bool {
    t.wf() && in_four_digit_years(t.secs as int)
}

impl ListFilters {
    /// Whether the bounds, where there are any, lie in the years that RFC 3339
    /// can write.
    pub open spec fn bounds_writable(self) -> bool {
        &&& self.since matches Some(t) ==> is_writable(t)
        &&& self.until matches Some(t) ==> is_writable(t)
    }

    /// What each filter says of the labels of a message.
    pub open spec fn labels_pass(self, source: Seq<char>, target: Option<Seq<char>>) -> bool {
        &&& self.source matches Some(l) ==> source == l@
        &&& self.target matches Some(l) ==> target == Some(l@)
        &&& self.participant_a matches Some(l) ==> source == l@ || target == Some(l@)
        &&& self.participant_b matches Some(l) ==> source == l@ || target == Some(l@)
        &&& forall|i: int|
            0 <= i < self.exclude@.len() ==> source != (#[trigger] self.exclude@[i])@ && target
                != Some(self.exclude@[i]@)
    }

    /// Whether a message passes every filter: its labels do, and it was sent
    /// neither before the one bound nor after the other.
    pub open spec fn admits(self, m: MessageView) -> bool {
        &&& self.labels_pass(m.source, m.target)
        &&& self.since matches Some(t) ==> !m.ts.before(t)
        &&& self.until matches Some(t) ==> !t.before(m.ts)
    }

    /// Whether the filters select stored messages by their times, in the years
    /// that RFC 3339 can write.
    pub open spec fn selects_by_time(self) -> bool {
        self.bounds_writable() ==> forall|m: MessageView|
            is_writable(m.ts) ==> (self.selects(#[trigger] m.stored()) <==> self.admits(m))
    }
}

/// Whether all of some conditions hold of a stored message.
spec fn all_hold(cs: Seq<Condition>, m: StoredView) -> bool {
    forall|i: int| 0 <= i < cs.len() ==> (#[trigger] cs[i]).holds(m)
}

proof fn lemma_all_hold_add(a: Seq<Condition>, b: Seq<Condition>, m: StoredView)
    ensures
        all_hold(a + b, m) <==> all_hold(a, m) && all_hold(b, m),
{
    if all_hold(a + b, m) {
        assert forall|i: int| 0 <= i < a.len() implies (#[trigger] a[i]).holds(m) by {
            assert((a + b)[i] == a[i]);
        }
        assert forall|i: int| 0 <= i < b.len() implies (#[trigger] b[i]).holds(m) by {
            assert((a + b)[a.len() + i] == b[i]);
        }
    }
}

proof fn lemma_all_hold_if(set: bool, c: Condition, m: StoredView)
    ensures
        all_hold(condition_if(set, c), m) <==> (set ==> c.holds(m)),
{
    if set {
        assert(condition_if(set, c)[0] == c);
    }
}

proof fn lemma_all_hold_hidden(f: ListFilters, m: StoredView)
    ensures
        all_hold(f.exclude@.map_values(|l: String| Condition::Hides(l@)), m) <==> forall|i: int|
            0 <= i < f.exclude@.len() ==> m.source != (#[trigger] f.exclude@[i])@ && m.target
                != Some(f.exclude@[i]@),
{
    let hides = f.exclude@.map_values(|l: String| Condition::Hides(l@));
    if all_hold(hides, m) {
        assert forall|i: int| 0 <= i < f.exclude@.len() implies m.source != (
        #[trigger] f.exclude@[i])@ && m.target != Some(f.exclude@[i]@) by {
            assert(hides[i].holds(m));
        }
    }
}

/// A stored message is selected if and only if its labels pass, and its time,
/// as text, lies in the range.
pub proof fn lemma_selects(f: ListFilters, m: StoredView)
    ensures
        f.selects(m) <==> f.labels_pass(m.source, m.target) && (f.since is Some ==> !text_less(
            m.ts,
            f.since->Some_0.rfc3339_text(),
        )) && (f.until is Some ==> !text_less(f.until->Some_0.rfc3339_text(), m.ts)),
{
    let source = Condition::SourceIs(f.source->Some_0@);
    let target = Condition::TargetIs(f.target->Some_0@);
    let a = Condition::Involves(f.participant_a->Some_0@);
    let b = Condition::Involves(f.participant_b->Some_0@);
    let lower = Condition::NotBefore(f.since->Some_0.rfc3339_text());
    let upper = Condition::NotAfter(f.until->Some_0.rfc3339_text());
    let c1 = condition_if(f.source is Some, source);
    let c2 = c1 + condition_if(f.target is Some, target);
    let c3 = c2 + condition_if(f.participant_a is Some, a);
    let c4 = c3 + condition_if(f.participant_b is Some, b);
    let hides = f.exclude@.map_values(|l: String| Condition::Hides(l@));
    let c5 = c4 + hides;
    let c6 = c5 + condition_if(f.since is Some, lower);
    lemma_all_hold_if(f.source is Some, source, m);
    lemma_all_hold_add(c1, condition_if(f.target is Some, target), m);
    lemma_all_hold_if(f.target is Some, target, m);
    lemma_all_hold_add(c2, condition_if(f.participant_a is Some, a), m);
    lemma_all_hold_if(f.participant_a is Some, a, m);
    lemma_all_hold_add(c3, condition_if(f.participant_b is Some, b), m);
    lemma_all_hold_if(f.participant_b is Some, b, m);
    lemma_all_hold_add(c4, hides, m);
    lemma_all_hold_hidden(f, m);
    lemma_all_hold_add(c5, condition_if(f.since is Some, lower), m);
    lemma_all_hold_if(f.since is Some, lower, m);
    lemma_all_hold_add(c6, condition_if(f.until is Some, upper), m);
    lemma_all_hold_if(f.until is Some, upper, m);
    assert(f.conditions() == c6 + condition_if(f.until is Some, upper));
    assert(f.selects(m) <==> all_hold(f.conditions(), m));
}

/// The conditions as a `WHERE` clause.
pub open spec fn where_sql(cs: Seq<Condition>) -> Seq<char>
    decreases cs.len(),
{
    if cs.len() == 0 {
        "WHERE 1=1"@
    } else {
        where_sql(cs.drop_last()) + cs.last().sql()
    }
}

/// What the clause binds.
pub open spec fn where_binds(cs: Seq<Condition>) -> Seq<Seq<char>>
    decreases cs.len(),
{
    if cs.len() == 0 {
        Seq::empty()
    } else {
        where_binds(cs.drop_last()) + cs.last().binds()
    }
}

/// A clause under construction.
struct Clause {
    sql: String,
    binds: Vec<String>,
}

impl Clause {
    spec fn is(self, cs: Seq<Condition>) -> bool {
        self.sql@ == where_sql(cs) && views(self.binds@) == where_binds(cs)
    }

    fn add(&mut self, sql: &str, value: &str, twice: bool, Ghost(cs): Ghost<Seq<Condition>>, Ghost(
        c,
    ): Ghost<Condition>)
        requires
            old(self).is(cs),
            c.sql() == sql@,
            c.binds() == if twice {
                seq![value@, value@]
            } else {
                seq![value@]
            },
        ensures
            final(self).is(cs.push(c)),
    {
        let ghost before = self.binds@;
        self.sql.append(sql);
        self.binds.push(value.to_owned());
        if twice {
            self.binds.push(value.to_owned());
        }
        proof {
            assert(cs.push(c).drop_last() == cs);
            assert(views(self.binds@) =~= views(before) + c.binds());
        }
    }

    fn add_if(
        &mut self,
        sql: &str,
        value: &Option<String>,
        twice: bool,
        Ghost(cs): Ghost<Seq<Condition>>,
        Ghost(c): Ghost<Condition>,
    )
        requires
            old(self).is(cs),
            c.sql() == sql@,
            value matches Some(v) ==> c.binds() == if twice {
                seq![v@, v@]
            } else {
                seq![v@]
            },
        ensures
            final(self).is(cs + condition_if(value is Some, c)),
    {
        match value {
            Some(v) => {
                self.add(sql, v.as_str(), twice, Ghost(cs), Ghost(c));
                proof {
                    assert(cs + seq![c] =~= cs.push(c));
                }
            },
            None => {
                proof {
                    assert(cs + Seq::<Condition>::empty() =~= cs);
                }
            },
        }
    }

    fn add_hidden(&mut self, labels: &Vec<String>, Ghost(cs): Ghost<Seq<Condition>>)
        requires
            old(self).is(cs),
        ensures
            final(self).is(cs + labels@.map_values(|l: String| Condition::Hides(l@))),
    {
        let ghost hides = labels@.map_values(|l: String| Condition::Hides(l@));
        let mut i: usize = 0;
        proof {
            assert(cs + hides.take(0) =~= cs);
        }
        while i < labels.len()
            invariant
                i <= labels@.len(),
                hides == labels@.map_values(|l: String| Condition::Hides(l@)),
                self.is(cs + hides.take(i as int)),
            decreases labels@.len() - i,
        {
            let label = labels[i].as_str();
            let ghost c = Condition::Hides(label@);
            let ghost done = cs + hides.take(i as int);
            self.add(
                " AND source <> ? AND (target IS NULL OR target <> ?)",
                label,
                true,
                Ghost(done),
                Ghost(c),
            );
            proof {
                assert(done.push(c) =~= cs + hides.take(i + 1));
            }
            i += 1;
        }
        proof {
            assert(hides.take(i as int) =~= hides);
        }
    }
}

/// The stored text of an optional time.
fn time_text(t: Option<Timestamp>) -> (r: Option<String>)
    requires
        t matches Some(x) ==> x.wf(),
    ensures
        r is Some == t is Some,
        r matches Some(s) ==> s@ == t->Some_0.rfc3339_text(),
        t is Some && is_writable(t->Some_0) ==> forall|u: Timestamp|
            is_writable(u) ==> (text_less(#[trigger] u.rfc3339_text(), t->Some_0.rfc3339_text())
                <==> u.before(t->Some_0)) && (text_less(
                t->Some_0.rfc3339_text(),
                u.rfc3339_text(),
            ) <==> t->Some_0.before(u)),
{
    match t {
        Some(x) => Some(to_rfc3339(x)),
        None => None,
    }
}

/// The `WHERE` clause of the filters, and the texts bound to it.
pub fn build_where(f: &ListFilters) -> (r: (String, Vec<String>))
    requires
        f.wf(),
    ensures
        r.0@ == where_sql(f.conditions()),
        views(r.1@) == where_binds(f.conditions()),
        f.selects_by_time(),
{
    let mut w = Clause { sql: "WHERE 1=1".to_owned(), binds: Vec::new() };
    let ghost c0: Seq<Condition> = Seq::empty();
    proof {
        assert(views(w.binds@) =~= Seq::empty());
    }
    let ghost source = Condition::SourceIs(f.source->Some_0@);
    w.add_if(" AND source = ?", &f.source, false, Ghost(c0), Ghost(source));
    let ghost c1 = condition_if(f.source is Some, source);
    proof {
        assert(c0 + c1 =~= c1);
    }
    let ghost target = Condition::TargetIs(f.target->Some_0@);
    w.add_if(" AND target = ?", &f.target, false, Ghost(c1), Ghost(target));
    let ghost c2 = c1 + condition_if(f.target is Some, target);
    let ghost a = Condition::Involves(f.participant_a->Some_0@);
    w.add_if(" AND (source = ? OR target = ?)", &f.participant_a, true, Ghost(c2), Ghost(a));
    let ghost c3 = c2 + condition_if(f.participant_a is Some, a);
    let ghost b = Condition::Involves(f.participant_b->Some_0@);
    w.add_if(" AND (source = ? OR target = ?)", &f.participant_b, true, Ghost(c3), Ghost(b));
    let ghost c4 = c3 + condition_if(f.participant_b is Some, b);
    w.add_hidden(&f.exclude, Ghost(c4));
    let ghost c5 = c4 + f.exclude@.map_values(|l: String| Condition::Hides(l@));
    let since = time_text(f.since);
    let ghost lower = Condition::NotBefore(f.since->Some_0.rfc3339_text());
    w.add_if(" AND ts >= ?", &since, false, Ghost(c5), Ghost(lower));
    let ghost c6 = c5 + condition_if(f.since is Some, lower);
    let until = time_text(f.until);
    let ghost upper = Condition::NotAfter(f.until->Some_0.rfc3339_text());
    w.add_if(" AND ts <= ?", &until, false, Ghost(c6), Ghost(upper));
    proof {
        if f.bounds_writable() {
            assert forall|m: MessageView| is_writable(m.ts) implies (f.selects(
                #[trigger] m.stored(),
            ) <==> f.admits(m)) by {
                lemma_selects(*f, m.stored());
                assert(m.stored().ts == m.ts.rfc3339_text());
            }
        }
    }
    (w.sql, w.binds)
}

/// Texts to bound values, in order.
fn to_binds(texts: &Vec<String>) -> (r: Vec<Bind>)
    ensures
        bind_views(r@) == text_binds(views(texts@)),
{
    let mut r: Vec<Bind> = Vec::new();
    let mut i: usize = 0;
    while i < texts.len()
        invariant
            i <= texts@.len(),
            r@.len() == i,
            forall|j: int| 0 <= j < i ==> (#[trigger] r@[j])@ == BindView::Text(texts@[j]@),
        decreases texts@.len() - i,
    {
        r.push(Bind::Text(texts[i].clone()));
        i += 1;
    }
    proof {
        assert(bind_views(r@) =~= text_binds(views(texts@)));
    }
    r
}

/// The statement that lists what the filters select, newest first, a page at a
/// time.
pub open spec fn list_statement(f: ListFilters) -> StatementView {
    StatementView {
        sql: "SELECT id, ts, via, source, target, content, meta, delivered_to, delivery_errors, sender_addr, sender_session_id FROM messages "@
            + where_sql(f.conditions()) + " ORDER BY ts DESC LIMIT ? OFFSET ?"@,
        binds: text_binds(where_binds(f.conditions())) + seq![
            BindView::Int(f.limit as int),
            BindView::Int(f.offset as int),
        ],
    }
}

/// The statement that lists what the filters select.
pub fn list_messages(f: &ListFilters) -> (r: Statement)
    requires
        f.wf(),
    ensures
        r@ == list_statement(*f),
        f.selects_by_time(),
{
    let (clause, texts) = build_where(f);
    let mut sql =
        "SELECT id, ts, via, source, target, content, meta, delivered_to, delivery_errors, sender_addr, sender_session_id FROM messages ".to_owned();
    sql.append(clause.as_str());
    sql.append(" ORDER BY ts DESC LIMIT ? OFFSET ?");
    let mut binds = to_binds(&texts);
    let ghost before = binds@;
    binds.push(Bind::Int(f.limit));
    binds.push(Bind::Int(f.offset));
    proof {
        assert(bind_views(binds@) =~= bind_views(before) + seq![
            BindView::Int(f.limit as int),
            BindView::Int(f.offset as int),
        ]);
    }
    Statement { sql, binds }
}

/// The statement that counts what the filters select.
pub open spec fn count_statement(f: ListFilters) -> StatementView {
    StatementView {
        sql: "SELECT COUNT(*) as c FROM messages "@ + where_sql(f.conditions()),
        binds: text_binds(where_binds(f.conditions())),
    }
}

/// The statement that counts what the filters select.
pub fn count_messages(f: &ListFilters) -> (r: Statement)
    requires
        f.wf(),
    ensures
        r@ == count_statement(*f),
        f.selects_by_time(),
{
    let (clause, texts) = build_where(f);
    let mut sql = "SELECT COUNT(*) as c FROM messages ".to_owned();
    sql.append(clause.as_str());
    Statement { sql, binds: to_binds(&texts) }
}

/// The statement that finds a message by its identifier.
pub open spec fn get_statement(id: u128) -> StatementView {
    StatementView {
        sql: "SELECT id, ts, via, source, target, content, meta, delivered_to, delivery_errors, sender_addr, sender_session_id FROM messages "@
            + "WHERE id = ?"@,
        binds: seq![BindView::Text(id_text(id))],
    }
}

/// The statement that finds a message by its identifier.
pub fn get_message(id: u128) -> (r: Statement)
    ensures
        r@ == get_statement(id),
{
    let mut sql =
        "SELECT id, ts, via, source, target, content, meta, delivered_to, delivery_errors, sender_addr, sender_session_id FROM messages ".to_owned();
    sql.append("WHERE id = ?");
    let r = Statement { sql, binds: vec![Bind::Text(id_string(id))] };
    proof {
        assert(r@ =~= get_statement(id));
    }
    r
}

/// The columns that hold labels.
pub open spec fn is_label_column(column: Seq<char>) -> bool {
    column == "source"@ || column == "target"@
}

/// The statement that lists the distinct labels of a column.
pub open spec fn distinct_statement(column: Seq<char>) -> StatementView {
    StatementView {
        sql: "SELECT DISTINCT "@ + column + " FROM messages WHERE "@ + column
            + " IS NOT NULL ORDER BY "@ + column,
        binds: Seq::empty(),
    }
}

/// The statement that lists the distinct labels of a column, which must be
/// `source` or `target`.
pub fn distinct_labels(column: &str) -> (r: Statement)
    requires
        is_label_column(column@),
    ensures
        r@ == distinct_statement(column@),
{
    let mut sql = "SELECT DISTINCT ".to_owned();
    sql.append(column);
    sql.append(" FROM messages WHERE ");
    sql.append(column);
    sql.append(" IS NOT NULL ORDER BY ");
    sql.append(column);
    statement(sql.as_str())
}

/// The statement that lists every label that has appeared as sender or target.
pub open spec fn participants_statement() -> StatementView {
    StatementView {
        sql: "SELECT DISTINCT label FROM (SELECT source AS label FROM messages UNION SELECT target AS label FROM messages WHERE target IS NOT NULL) ORDER BY label"@,
        binds: Seq::empty(),
    }
}

/// The statement that lists every label that has appeared as sender or target.
pub fn distinct_participants() -> (r: Statement)
    ensures
        r@ == participants_statement(),
{
    statement(
        "SELECT DISTINCT label FROM (SELECT source AS label FROM messages UNION SELECT target AS label FROM messages WHERE target IS NOT NULL) ORDER BY label",
    )
}

// ---------------------------------------------------------------------------
// Laws
// ---------------------------------------------------------------------------

/// A conversation filter with two different participants selects, of the
/// messages that no other filter drops, those from one of them to the other,
/// in either direction.
pub proof fn law_conversation(f: ListFilters, a: Seq<char>, b: Seq<char>, m: StoredView)
    requires
        opt_view(f.participant_a) == Some(a),
        opt_view(f.participant_b) == Some(b),
        a != b,
        f.selects(m),
    ensures
        (m.source == a && m.target == Some(b)) || (m.source == b && m.target == Some(a)),
{
    let n = condition_if(f.source is Some, Condition::SourceIs(f.source->Some_0@)).len()
        + condition_if(f.target is Some, Condition::TargetIs(f.target->Some_0@)).len();
    assert(f.conditions()[n as int] == Condition::Involves(a));
    assert(f.conditions()[n as int + 1] == Condition::Involves(b));
}

/// With only the conversation filter set, every message exchanged between the
/// two participants is selected.
pub proof fn law_conversation_complete(f: ListFilters, a: Seq<char>, b: Seq<char>, m: StoredView)
    requires
        opt_view(f.participant_a) == Some(a),
        opt_view(f.participant_b) == Some(b),
        f.source is None,
        f.target is None,
        f.exclude@.len() == 0,
        f.since is None,
        f.until is None,
        (m.source == a && m.target == Some(b)) || (m.source == b && m.target == Some(a)),
    ensures
        f.selects(m),
{
    assert(f.conditions() =~= seq![Condition::Involves(a), Condition::Involves(b)]);
}

/// A selected message passes each filter that is set: it has the sender and the
/// target, and its time lies in the range.
pub proof fn law_selected_messages_pass_each_filter(f: ListFilters, m: StoredView)
    requires
        f.selects(m),
    ensures
        f.source is Some ==> m.source == f.source->Some_0@,
        f.target is Some ==> m.target == Some(f.target->Some_0@),
        f.since is Some ==> !text_less(m.ts, f.since->Some_0.rfc3339_text()),
        f.until is Some ==> !text_less(f.until->Some_0.rfc3339_text(), m.ts),
{
    let cs = f.conditions();
    let n = cs.len() as int;
    let source = condition_if(f.source is Some, Condition::SourceIs(f.source->Some_0@)).len();
    if f.source is Some {
        assert(cs[0] == Condition::SourceIs(f.source->Some_0@));
    }
    if f.target is Some {
        assert(cs[source as int] == Condition::TargetIs(f.target->Some_0@));
    }
    let upper = condition_if(
        f.until is Some,
        Condition::NotAfter(f.until->Some_0.rfc3339_text()),
    ).len();
    if f.until is Some {
        assert(cs[n - 1] == Condition::NotAfter(f.until->Some_0.rfc3339_text()));
    }
    if f.since is Some {
        assert(cs[n - 1 - upper] == Condition::NotBefore(f.since->Some_0.rfc3339_text()));
    }
}

/// No selected message comes from a hidden label or is addressed to one.
pub proof fn law_excluded_labels_are_hidden(f: ListFilters, i: int, m: StoredView)
    requires
        0 <= i < f.exclude@.len(),
        f.selects(m),
    ensures
        m.source != f.exclude@[i]@,
        m.target != Some(f.exclude@[i]@),
{
    let n = condition_if(f.source is Some, Condition::SourceIs(f.source->Some_0@)).len()
        + condition_if(f.target is Some, Condition::TargetIs(f.target->Some_0@)).len()
        + condition_if(
        f.participant_a is Some,
        Condition::Involves(f.participant_a->Some_0@),
    ).len() + condition_if(
        f.participant_b is Some,
        Condition::Involves(f.participant_b->Some_0@),
    ).len();
    assert(f.conditions()[n as int + i] == Condition::Hides(f.exclude@[i]@));
}

/// Without filters every message is selected.
pub proof fn law_no_filter_selects_all(f: ListFilters, m: StoredView)
    requires
        f.source is None,
        f.target is None,
        f.participant_a is None,
        f.participant_b is None,
        f.exclude@.len() == 0,
        f.since is None,
        f.until is None,
    ensures
        f.selects(m),
        where_sql(f.conditions()) == "WHERE 1=1"@,
        where_binds(f.conditions()) == Seq::<Seq<char>>::empty(),
{
    assert(f.conditions() =~= Seq::<Condition>::empty());
}

/// The number of placeholders in a statement's text.
pub open spec fn placeholders(sql: Seq<char>) -> nat
    decreases sql.len(),
{
    if sql.len() == 0 {
        0
    } else {
        placeholders(sql.drop_last()) + if sql.last() == '?' {
            1nat
        } else {
            0nat
        }
    }
}

proof fn lemma_placeholders_add(a: Seq<char>, b: Seq<char>)
    ensures
        placeholders(a + b) == placeholders(a) + placeholders(b),
    decreases b.len(),
{
    if b.len() == 0 {
        assert(a + b =~= a);
    } else {
        assert((a + b).drop_last() =~= a + b.drop_last());
        lemma_placeholders_add(a, b.drop_last());
    }
}

proof fn lemma_no_placeholder(s: Seq<char>)
    requires
        forall|i: int| 0 <= i < s.len() ==> s[i] != '?',
    ensures
        placeholders(s) == 0,
    decreases s.len(),
{
    if s.len() > 0 {
        lemma_no_placeholder(s.drop_last());
    }
}

proof fn lemma_placeholders_split(s: Seq<char>, p: int)
    requires
        0 <= p < s.len(),
        s[p] == '?',
    ensures
        placeholders(s) == placeholders(s.take(p)) + 1 + placeholders(s.skip(p + 1)),
{
    let head = s.take(p + 1);
    assert(head.drop_last() =~= s.take(p));
    lemma_placeholders_add(head, s.skip(p + 1));
    assert(s =~= head + s.skip(p + 1));
}

proof fn lemma_one_placeholder(s: Seq<char>, p: int)
    requires
        0 <= p < s.len(),
        s[p] == '?',
        forall|i: int| 0 <= i < s.len() && i != p ==> s[i] != '?',
    ensures
        placeholders(s) == 1,
{
    lemma_placeholders_split(s, p);
    lemma_no_placeholder(s.take(p));
    lemma_no_placeholder(s.skip(p + 1));
}

proof fn lemma_two_placeholders(s: Seq<char>, p: int, q: int)
    requires
        0 <= p < q < s.len(),
        s[p] == '?',
        s[q] == '?',
        forall|i: int| 0 <= i < s.len() && i != p && i != q ==> s[i] != '?',
    ensures
        placeholders(s) == 2,
{
    lemma_placeholders_split(s, p);
    lemma_no_placeholder(s.take(p));
    lemma_one_placeholder(s.skip(p + 1), q - p - 1);
}

proof fn lemma_condition_placeholders(c: Condition)
    ensures
        placeholders(c.sql()) == c.binds().len(),
{
    match c {
        Condition::SourceIs(_) => {
            reveal_strlit(" AND source = ?");
            lemma_one_placeholder(c.sql(), 14);
        },
        Condition::TargetIs(_) => {
            reveal_strlit(" AND target = ?");
            lemma_one_placeholder(c.sql(), 14);
        },
        Condition::Involves(_) => {
            reveal_strlit(" AND (source = ? OR target = ?)");
            lemma_two_placeholders(c.sql(), 15, 29);
        },
        Condition::Hides(_) => {
            reveal_strlit(" AND source <> ? AND (target IS NULL OR target <> ?)");
            lemma_two_placeholders(c.sql(), 15, 50);
        },
        Condition::NotBefore(_) => {
            reveal_strlit(" AND ts >= ?");
            lemma_one_placeholder(c.sql(), 11);
        },
        Condition::NotAfter(_) => {
            reveal_strlit(" AND ts <= ?");
            lemma_one_placeholder(c.sql(), 11);
        },
    }
}

proof fn lemma_where_placeholders(cs: Seq<Condition>)
    ensures
        placeholders(where_sql(cs)) == where_binds(cs).len(),
    decreases cs.len(),
{
    if cs.len() == 0 {
        reveal_strlit("WHERE 1=1");
        lemma_no_placeholder("WHERE 1=1"@);
    } else {
        lemma_where_placeholders(cs.drop_last());
        lemma_condition_placeholders(cs.last());
        lemma_placeholders_add(where_sql(cs.drop_last()), cs.last().sql());
    }
}

proof fn lemma_select_placeholders()
    ensures
        placeholders(
            "SELECT id, ts, via, source, target, content, meta, delivered_to, delivery_errors, sender_addr, sender_session_id FROM messages "@,
        ) == 0,
{
    reveal_strlit(
        "SELECT id, ts, via, source, target, content, meta, delivered_to, delivery_errors, sender_addr, sender_session_id FROM messages ",
    );
    lemma_no_placeholder(
        "SELECT id, ts, via, source, target, content, meta, delivered_to, delivery_errors, sender_addr, sender_session_id FROM messages "@,
    );
}

proof fn lemma_every_third(s: Seq<char>, n: nat)
    requires
        n > 0,
        s.len() == 3 * n - 1,
        forall|i: int| 0 <= i < s.len() ==> (#[trigger] s[i] == '?' <==> i % 3 == 0),
    ensures
        placeholders(s) == n,
    decreases n,
{
    lemma_placeholders_split(s, 0);
    assert(s.take(0) =~= Seq::<char>::empty());
    let rest = s.skip(1);
    if n == 1 {
        assert(rest[0] == s[1]);
        lemma_no_placeholder(rest);
    } else {
        assert(rest[0] == s[1] && rest[1] == s[2]);
        lemma_no_placeholder(rest.take(2));
        assert(rest =~= rest.take(2) + s.skip(3));
        lemma_placeholders_add(rest.take(2), s.skip(3));
        assert forall|i: int| 0 <= i < s.skip(3).len() implies (#[trigger] s.skip(3)[i] == '?'
            <==> i % 3 == 0) by {
            assert(s.skip(3)[i] == s[i + 3]);
        }
        lemma_every_third(s.skip(3), (n - 1) as nat);
    }
}

/// Every statement binds exactly one value to each of its placeholders.
pub proof fn law_placeholders_match_binds(f: ListFilters, id: u128, s: StoredView)
    ensures
        placeholders(list_statement(f).sql) == list_statement(f).binds.len(),
        placeholders(count_statement(f).sql) == count_statement(f).binds.len(),
        placeholders(get_statement(id).sql) == get_statement(id).binds.len(),
        placeholders(insert_statement(s).sql) == insert_statement(s).binds.len(),
{
    let select =
        "SELECT id, ts, via, source, target, content, meta, delivered_to, delivery_errors, sender_addr, sender_session_id FROM messages "@;
    let clause = where_sql(f.conditions());
    lemma_select_placeholders();
    lemma_where_placeholders(f.conditions());
    let tail = " ORDER BY ts DESC LIMIT ? OFFSET ?"@;
    reveal_strlit(" ORDER BY ts DESC LIMIT ? OFFSET ?");
    lemma_two_placeholders(tail, 24, 33);
    lemma_placeholders_add(select, clause);
    lemma_placeholders_add(select + clause, tail);
    let count = "SELECT COUNT(*) as c FROM messages "@;
    reveal_strlit("SELECT COUNT(*) as c FROM messages ");
    lemma_no_placeholder(count);
    lemma_placeholders_add(count, clause);
    let by_id = "WHERE id = ?"@;
    reveal_strlit("WHERE id = ?");
    lemma_one_placeholder(by_id, 11);
    lemma_placeholders_add(select, by_id);
    let insert =
        "INSERT INTO messages (id, ts, via, source, target, content, meta, delivered_to, delivery_errors, sender_addr, sender_session_id) VALUES ("@;
    reveal_strlit(
        "INSERT INTO messages (id, ts, via, source, target, content, meta, delivered_to, delivery_errors, sender_addr, sender_session_id) VALUES (",
    );
    lemma_no_placeholder(insert);
    let values = "?, ?, ?, ?, ?, ?, ?, ?, ?, ?, ?)"@;
    reveal_strlit("?, ?, ?, ?, ?, ?, ?, ?, ?, ?, ?)");
    lemma_every_third(values, 11);
    lemma_placeholders_add(insert, values);
}

/// Each condition is written as what it means: it is one of six pieces of SQL,
/// and holds of a row if and only if the piece does with the bound values in
/// place of its question marks. A comparison with a column that is null does not
/// hold.
pub proof fn law_conditions_are_written_as_meant(c: Condition, m: StoredView)
    ensures
        c.sql() == " AND source = ?"@ || c.sql() == " AND target = ?"@ || c.sql()
            == " AND (source = ? OR target = ?)"@ || c.sql()
            == " AND source <> ? AND (target IS NULL OR target <> ?)"@ || c.sql() == " AND ts >= ?"@
            || c.sql() == " AND ts <= ?"@,
        c.sql() == " AND source = ?"@ ==> c.binds().len() == 1 && (c.holds(m) <==> m.source
            == c.binds()[0]),
        c.sql() == " AND target = ?"@ ==> c.binds().len() == 1 && (c.holds(m) <==> m.target is Some
            && m.target->Some_0 == c.binds()[0]),
        c.sql() == " AND (source = ? OR target = ?)"@ ==> c.binds().len() == 2 && (c.holds(m)
            <==> m.source == c.binds()[0] || (m.target is Some && m.target->Some_0
            == c.binds()[1])),
        c.sql() == " AND source <> ? AND (target IS NULL OR target <> ?)"@ ==> c.binds().len() == 2
            && (c.holds(m) <==> m.source != c.binds()[0] && (m.target is None || m.target->Some_0
            != c.binds()[1])),
        c.sql() == " AND ts >= ?"@ ==> c.binds().len() == 1 && (c.holds(m) <==> !text_less(
            m.ts,
            c.binds()[0],
        )),
        c.sql() == " AND ts <= ?"@ ==> c.binds().len() == 1 && (c.holds(m) <==> !text_less(
            c.binds()[0],
            m.ts,
        )),
{
    reveal_strlit(" AND source = ?");
    reveal_strlit(" AND target = ?");
    reveal_strlit(" AND (source = ? OR target = ?)");
    reveal_strlit(" AND source <> ? AND (target IS NULL OR target <> ?)");
    reveal_strlit(" AND ts >= ?");
    reveal_strlit(" AND ts <= ?");
    assert(" AND source = ?"@.len() == 15);
    assert(" AND target = ?"@.len() == 15);
    assert(" AND source = ?"@[5] == 's');
    assert(" AND target = ?"@[5] == 't');
    assert(" AND (source = ? OR target = ?)"@.len() == 31);
    assert(" AND source <> ? AND (target IS NULL OR target <> ?)"@.len() == 52);
    assert(" AND ts >= ?"@.len() == 12);
    assert(" AND ts <= ?"@.len() == 12);
    assert(" AND ts >= ?"@[8] == '>');
    assert(" AND ts <= ?"@[8] == '<');
}

/// A clause is the pieces of its conditions one after another, and binds their
/// values in the same order.
pub proof fn law_clause_lists_its_conditions(cs: Seq<Condition>, c: Condition)
    ensures
        where_sql(Seq::empty()) == "WHERE 1=1"@,
        where_binds(Seq::empty()) == Seq::<Seq<char>>::empty(),
        where_sql(cs.push(c)) == where_sql(cs) + c.sql(),
        where_binds(cs.push(c)) == where_binds(cs) + c.binds(),
{
    assert(cs.push(c).drop_last() =~= cs);
}

/// The columns hold what the message holds: its texts as they are, its
/// identifier and time as text, and its lists as JSON.
pub proof fn law_columns_hold_the_message(m: MessageView)
    ensures
        m.stored().id == id_text(m.id),
        m.stored().ts == rfc3339(m.ts.secs, m.ts.nanos),
        m.via == Via::Notify ==> m.stored().via == "notify"@,
        m.via == Via::Tool ==> m.stored().via == "tool"@,
        m.stored().source == m.source,
        m.stored().target == m.target,
        m.stored().content == m.content,
        m.stored().meta == m.meta,
        m.stored().delivered_to == json_list(m.delivered_to),
        m.stored().delivery_errors == json_list(m.delivery_errors),
        m.stored().sender_addr == m.sender_addr,
        m.stored().sender_session_id == m.sender_session_id,
{
}

/// A message that is read holds what the columns hold; and every row is read
/// whose identifier, time, way in, meta and lists are.
pub proof fn law_message_holds_the_columns(s: StoredView)
    ensures
        s.message() is Ok <==> parsed_id(s.id) is Some && rfc3339_time(s.ts) is Some && (s.via
            == "notify"@ || s.via == "tool"@) && json_value(s.meta) is Some && string_list(
            s.delivered_to,
        ) is Some && string_list(s.delivery_errors) is Some,
        s.message() is Ok ==> {
            let m = s.message()->Ok_0;
            &&& Some(m.id) == parsed_id(s.id)
            &&& Some((m.ts.secs, m.ts.nanos)) == rfc3339_time(s.ts)
            &&& s.via == "notify"@ ==> m.via == Via::Notify
            &&& s.via == "tool"@ ==> m.via == Via::Tool
            &&& m.source == s.source
            &&& m.target == s.target
            &&& m.content == s.content
            &&& Some(m.meta) == json_value(s.meta)
            &&& Some(m.delivered_to) == string_list(s.delivered_to)
            &&& Some(m.delivery_errors) == string_list(s.delivery_errors)
            &&& m.sender_addr == s.sender_addr
            &&& m.sender_session_id == s.sender_session_id
        },
        s.message() is Err && s.message()->Err_0 == Fault::Id <==> parsed_id(s.id) is None,
        s.message() matches Err(Fault::Via(name)) ==> name == s.via,
{
    reveal_strlit("notify");
    reveal_strlit("tool");
    assert("notify"@.len() != "tool"@.len());
}

/// A message is looked up by the value that its row was given as identifier.
pub proof fn law_look_up_is_by_identifier(m: MessageView)
    ensures
        get_statement(m.id).binds == seq![insert_statement(m.stored()).binds[0]],
        get_statement(m.id).binds == seq![BindView::Text(id_text(m.id))],
{
}

/// Where one row cannot be read, nothing is; the fault is that of the first such
/// row.
pub proof fn law_first_fault_is_told(rows: Seq<StoredView>)
    ensures
        first_fault(rows) is None <==> forall|i: int|
            0 <= i < rows.len() ==> (#[trigger] rows[i]).message() is Ok,
        first_fault(rows) matches Some(e) ==> exists|i: int|
            0 <= i < rows.len() && (#[trigger] rows[i]).message() == Err::<MessageView, Fault>(e)
                && forall|j: int| 0 <= j < i ==> (#[trigger] rows[j]).message() is Ok,
    decreases rows.len(),
{
    if rows.len() > 0 {
        let rest = rows.skip(1);
        law_first_fault_is_told(rest);
        assert forall|i: int| 0 <= i < rest.len() implies #[trigger] rest[i] == rows[i + 1] by {}
        if rows[0].message() is Ok {
            if first_fault(rows) is None {
                assert forall|i: int| 0 <= i < rows.len() implies (
                #[trigger] rows[i]).message() is Ok by {
                    if i > 0 {
                        assert(rest[i - 1].message() is Ok);
                    }
                }
            } else {
                let e = first_fault(rows)->Some_0;
                let i = choose|i: int|
                    0 <= i < rest.len() && (#[trigger] rest[i]).message() == Err::<
                        MessageView,
                        Fault,
                    >(e) && forall|j: int| 0 <= j < i ==> (#[trigger] rest[j]).message() is Ok;
                assert(rows[i + 1].message() == Err::<MessageView, Fault>(e));
                assert forall|j: int| 0 <= j < i + 1 implies (
                #[trigger] rows[j]).message() is Ok by {
                    if j > 0 {
                        assert(rest[j - 1].message() is Ok);
                    }
                }
            }
        } else {
            assert(rows[0].message() is Err);
        }
    }
}

/// The labels to choose from are asked for by column, each once, in order; the
/// participants are the labels of both columns together.
pub proof fn law_labels_are_asked_for()
    ensures
        distinct_statement("source"@).sql
            == "SELECT DISTINCT source FROM messages WHERE source IS NOT NULL ORDER BY source"@,
        distinct_statement("target"@).sql
            == "SELECT DISTINCT target FROM messages WHERE target IS NOT NULL ORDER BY target"@,
        participants_statement().sql == "SELECT DISTINCT label FROM ("@
            + "SELECT source AS label FROM messages"@ + " UNION "@
            + "SELECT target AS label FROM messages WHERE target IS NOT NULL"@
            + ") ORDER BY label"@,
        distinct_statement("source"@).binds.len() == 0,
        distinct_statement("target"@).binds.len() == 0,
        participants_statement().binds.len() == 0,
{
    reveal_strlit("source");
    reveal_strlit("target");
    reveal_strlit("SELECT DISTINCT ");
    reveal_strlit(" FROM messages WHERE ");
    reveal_strlit(" IS NOT NULL ORDER BY ");
    reveal_strlit("SELECT DISTINCT source FROM messages WHERE source IS NOT NULL ORDER BY source");
    reveal_strlit("SELECT DISTINCT target FROM messages WHERE target IS NOT NULL ORDER BY target");
    reveal_strlit(
        "SELECT DISTINCT label FROM (SELECT source AS label FROM messages UNION SELECT target AS label FROM messages WHERE target IS NOT NULL) ORDER BY label",
    );
    reveal_strlit("SELECT DISTINCT label FROM (");
    reveal_strlit("SELECT source AS label FROM messages");
    reveal_strlit(" UNION ");
    reveal_strlit("SELECT target AS label FROM messages WHERE target IS NOT NULL");
    reveal_strlit(") ORDER BY label");
    assert(distinct_statement("source"@).sql
        =~= "SELECT DISTINCT source FROM messages WHERE source IS NOT NULL ORDER BY source"@);
    assert(distinct_statement("target"@).sql
        =~= "SELECT DISTINCT target FROM messages WHERE target IS NOT NULL ORDER BY target"@);
    assert(participants_statement().sql =~= "SELECT DISTINCT label FROM ("@
        + "SELECT source AS label FROM messages"@ + " UNION "@
        + "SELECT target AS label FROM messages WHERE target IS NOT NULL"@ + ") ORDER BY label"@);
}

proof fn lemma_clause_shows(cs: Seq<Condition>, i: int)
    requires
        0 <= i < cs.len(),
    ensures
        shows(where_sql(cs), cs[i].sql()),
        i + 1 < cs.len() ==> shows(where_sql(cs), cs[i].sql() + cs[i + 1].sql()),
    decreases cs.len(),
{
    lemma_shows();
    let head = cs.drop_last();
    let n = cs.len() as int;
    assert(where_sql(cs) == where_sql(head) + cs[n - 1].sql());
    if i < n - 1 {
        lemma_clause_shows(head, i);
        assert(head[i] == cs[i]);
        if i + 1 == n - 1 {
            assert(where_sql(head) == where_sql(head.drop_last()) + cs[i].sql());
            assert(shows(
                where_sql(head.drop_last()) + cs[i].sql() + cs[n - 1].sql(),
                cs[i].sql() + cs[n - 1].sql(),
            ));
        } else {
            assert(head[i + 1] == cs[i + 1]);
        }
    }
}

proof fn lemma_clause_binds(cs: Seq<Condition>, i: int, j: int)
    requires
        0 <= i < cs.len(),
        0 <= j < cs[i].binds().len(),
    ensures
        where_binds(cs).contains(cs[i].binds()[j]),
    decreases cs.len(),
{
    let head = cs.drop_last();
    let n = cs.len() as int;
    let last = cs[n - 1].binds();
    assert(where_binds(cs) == where_binds(head) + last);
    if i < n - 1 {
        lemma_clause_binds(head, i, j);
        let b = cs[i].binds()[j];
        let k = choose|k: int| 0 <= k < where_binds(head).len() && where_binds(head)[k] == b;
        assert(where_binds(cs)[k] == b);
    } else {
        assert(where_binds(cs)[where_binds(head).len() + j] == last[j]);
    }
}

/// Where both participants of a conversation are set, the listing and the count
/// ask for each of them, with a condition of its own, to be the source or the
/// target.
pub proof fn law_both_participants_are_asked_for(f: ListFilters, a: Seq<char>, b: Seq<char>)
    requires
        opt_view(f.participant_a) == Some(a),
        opt_view(f.participant_b) == Some(b),
    ensures
        shows(
            list_statement(f).sql,
            " AND (source = ? OR target = ?)"@ + " AND (source = ? OR target = ?)"@,
        ),
        shows(
            count_statement(f).sql,
            " AND (source = ? OR target = ?)"@ + " AND (source = ? OR target = ?)"@,
        ),
        list_statement(f).binds.contains(BindView::Text(a)),
        list_statement(f).binds.contains(BindView::Text(b)),
        count_statement(f).binds.contains(BindView::Text(a)),
        count_statement(f).binds.contains(BindView::Text(b)),
{
    lemma_shows();
    let cs = f.conditions();
    let i = (condition_if(f.source is Some, Condition::SourceIs(f.source->Some_0@)) + condition_if(
        f.target is Some,
        Condition::TargetIs(f.target->Some_0@),
    )).len() as int;
    assert(cs[i] == Condition::Involves(a));
    assert(cs[i + 1] == Condition::Involves(b));
    lemma_clause_shows(cs, i);
    lemma_clause_binds(cs, i, 0);
    lemma_clause_binds(cs, i + 1, 0);
    let texts = where_binds(cs);
    let j = choose|j: int| 0 <= j < texts.len() && texts[j] == a;
    let k = choose|k: int| 0 <= k < texts.len() && texts[k] == b;
    assert(count_statement(f).binds[j] == BindView::Text(a));
    assert(count_statement(f).binds[k] == BindView::Text(b));
    assert(list_statement(f).binds[j] == BindView::Text(a));
    assert(list_statement(f).binds[k] == BindView::Text(b));
}

/// A file is made where there is none yet, except for a database in memory.
pub proof fn law_missing_files_are_made(path: Seq<char>)
    ensures
        !makes_file(path, true),
        !makes_file(":memory:"@, false),
        path != ":memory:"@ ==> makes_file(path, false),
{
}

} // verus!
