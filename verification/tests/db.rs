use agent_salon::db::{
    count_messages, distinct_labels, distinct_participants, get_message, initialize_schema,
    insert_message, list_messages, message_to_row, open, row_to_message, rows_to_messages, Bind,
    DecodeError, ListFilters, MessageRow, Statement, StoredRow, Via,
};
use agent_salon::time::Timestamp;
use serde_json::Value;
use sqlx::Row;

fn message(n: u128, source: &str, target: Option<&str>, secs: i64) -> MessageRow {
    let mut meta = serde_json::Map::new();
    meta.insert("kind".to_string(), Value::from("info"));
    meta.insert("n".to_string(), Value::from(-3));
    meta.insert(
        "nested".to_string(),
        Value::Array(vec![Value::Null, Value::from(true), Value::from(1.5), Value::from("\u{1}")]),
    );
    MessageRow {
        id: n,
        ts: Timestamp { secs, nanos: 123_456_789 },
        via: Via::Tool,
        source: source.to_string(),
        target: target.map(|t| t.to_string()),
        content: "hello".to_string(),
        meta: Value::Object(meta),
        delivered_to: vec!["x".to_string()],
        delivery_errors: vec!["y\"".to_string(), "z".to_string()],
        sender_addr: None,
        sender_session_id: Some("sid".to_string()),
    }
}

fn same(a: &MessageRow, b: &MessageRow) -> bool {
    a.id == b.id
        && a.ts == b.ts
        && a.via == b.via
        && a.source == b.source
        && a.target == b.target
        && a.content == b.content
        && a.meta == b.meta
        && a.delivered_to == b.delivered_to
        && a.delivery_errors == b.delivery_errors
        && a.sender_addr == b.sender_addr
        && a.sender_session_id == b.sender_session_id
}

#[test]
fn columns_are_exact() {
    let s = message_to_row(&message(1, "ci", None, 1_767_225_600));
    assert_eq!(s.id, "00000000-0000-0000-0000-000000000001");
    assert_eq!(s.ts, "2026-01-01T00:00:00.123456789+00:00");
    assert_eq!(s.via, "tool");
    assert_eq!(s.meta, "{\"kind\":\"info\",\"n\":-3,\"nested\":[null,true,1.5,\"\\u0001\"]}");
    assert_eq!(s.delivered_to, "[\"x\"]");
    assert_eq!(s.delivery_errors, "[\"y\\\"\",\"z\"]");
    assert_eq!(s.sender_session_id.as_deref(), Some("sid"));
}

#[test]
fn what_is_stored_is_read_back() {
    let m = message(u128::MAX, "a", Some("b"), 253_402_300_799);
    let back = row_to_message(&message_to_row(&m)).unwrap();
    assert!(same(&m, &back));
    assert!(same(&m, &m.clone()));
    for ts in [
        Timestamp { secs: -62_167_219_200, nanos: 0 },
        Timestamp { secs: -1, nanos: 999_999_999 },
        Timestamp { secs: 59, nanos: 1_500_000_000 },
    ] {
        let m = MessageRow { ts, ..message(1, "a", None, 0) };
        assert_eq!(row_to_message(&message_to_row(&m)).unwrap().ts, ts);
    }
}

#[test]
fn stored_times_sort_as_times() {
    let nanos = [0, 1, 1_000, 999_999, 1_000_000, 500_000_000, 999_999_999];
    let mut times: Vec<Timestamp> = Vec::new();
    for secs in [-62_167_219_200, -1, 0, 58, 59, 60, 3_599, 86_399, 253_402_300_799] {
        times.extend(nanos.iter().map(|n| Timestamp { secs, nanos: *n }));
        if secs % 60 == 59 || secs == -1 {
            times.extend(nanos.iter().map(|n| Timestamp { secs, nanos: n + 1_000_000_000 }));
        }
    }
    let text = |ts: Timestamp| message_to_row(&MessageRow { ts, ..message(1, "a", None, 0) }).ts;
    for a in &times {
        for b in &times {
            let order = (a.secs, a.nanos).cmp(&(b.secs, b.nanos));
            assert_eq!(text(*a).cmp(&text(*b)), order, "{a:?} {b:?}");
        }
    }
}

#[test]
fn no_filters_by_default() {
    let f = ListFilters::default();
    assert!(f.source.is_none() && f.target.is_none());
    assert!(f.participant_a.is_none() && f.participant_b.is_none());
    assert!(f.exclude.is_empty() && f.since.is_none() && f.until.is_none());
    assert_eq!((f.limit, f.offset), (0, 0));
}

#[test]
fn each_broken_column_is_told() {
    let good = message_to_row(&message(1, "a", None, 0));
    assert!(row_to_message(&good).is_ok());
    let with = |f: &dyn Fn(&mut StoredRow)| {
        let mut row = good.clone();
        f(&mut row);
        row_to_message(&row).unwrap_err()
    };
    assert!(matches!(with(&|r| r.id = "nope".to_string()), DecodeError::Id(_)));
    assert!(matches!(with(&|r| r.ts = "yesterday".to_string()), DecodeError::Ts(_)));
    assert!(matches!(with(&|r| r.via = "mail".to_string()), DecodeError::Via(v) if v == "mail"));
    assert!(matches!(with(&|r| r.meta = "{".to_string()), DecodeError::Meta(_)));
    assert!(matches!(with(&|r| r.delivered_to = "[1]".to_string()), DecodeError::DeliveredTo(_)));
    assert!(matches!(with(&|r| r.delivery_errors = "".to_string()), DecodeError::DeliveryErrors(_)));
    let mut bad = good.clone();
    bad.via = "mail".to_string();
    bad.meta = "{".to_string();
    assert!(matches!(
        rows_to_messages(&vec![good.clone(), bad]).unwrap_err(),
        DecodeError::Via(_)
    ));
    assert_eq!(rows_to_messages(&vec![good.clone(), good]).unwrap().len(), 2);
}

#[test]
fn reads_other_spellings() {
    let mut row = message_to_row(&message(0xa0, "a", None, 0));
    row.id = "000000000000000000000000000000A0".to_string();
    row.ts = "1970-01-01T09:00:00+09:00".to_string();
    row.meta = " { \"b\" : 1, \"a\" : 2 } ".to_string();
    let m = row_to_message(&row).unwrap();
    assert_eq!(m.id, 0xa0);
    assert_eq!(m.ts, Timestamp { secs: 0, nanos: 0 });
    assert_eq!(message_to_row(&m).meta, "{\"a\":2,\"b\":1}");
}

fn with_meta(key: &str, value: Value) -> Result<MessageRow, DecodeError> {
    let mut m = message(1, "a", None, 0);
    let mut meta = serde_json::Map::new();
    meta.insert(key.to_string(), value);
    m.meta = Value::Object(meta);
    row_to_message(&message_to_row(&m))
}

#[test]
fn values_of_every_kind_are_read_back() {
    for value in [
        Value::Null,
        Value::from(false),
        Value::from(u64::MAX),
        Value::from(i64::MIN),
        Value::from(0.5),
        Value::from("\u{0}\u{1f}\"\\/\u{7f}\u{2028}"),
        Value::Array(vec![Value::from(1), Value::Object(serde_json::Map::new())]),
    ] {
        assert_eq!(with_meta("k", value.clone()).unwrap().meta["k"], value);
    }
}

#[test]
fn nesting_has_a_limit() {
    let nested = |depth: usize| (0..depth).fold(Value::Null, |v, _| Value::Array(vec![v]));
    assert_eq!(with_meta("k", nested(126)).unwrap().meta["k"], nested(126));
    assert!(matches!(with_meta("k", nested(127)), Err(DecodeError::Meta(_))));
}

#[test]
fn one_key_is_reserved() {
    let read = with_meta("$serde_json::private::RawValue", Value::from("1")).unwrap();
    assert_eq!(read.meta, Value::from(1));
    let mut m = message(1, "a", None, 0);
    let mut inner = serde_json::Map::new();
    inner.insert("#".to_string(), Value::Null);
    inner.insert("$serde_json::private::RawValue".to_string(), Value::from(1));
    let mut meta = inner.clone();
    meta.insert("nested".to_string(), Value::Object(inner));
    m.meta = Value::Object(meta);
    assert_eq!(row_to_message(&message_to_row(&m)).unwrap().meta, m.meta);
    assert_eq!(with_meta("$other", Value::from("1")).unwrap().meta["$other"], "1");
}

#[test]
fn via_names() {
    assert_eq!(Via::Notify.as_str(), "notify");
    assert_eq!(Via::Tool.as_str(), "tool");
}

#[test]
fn where_clause_is_exact() {
    let f = ListFilters {
        source: Some("s".to_string()),
        target: Some("t".to_string()),
        participant_a: Some("a".to_string()),
        participant_b: Some("b".to_string()),
        exclude: vec!["h".to_string()],
        since: Some(Timestamp { secs: 0, nanos: 0 }),
        until: Some(Timestamp { secs: 1, nanos: 0 }),
        limit: 50,
        offset: 100,
    };
    let s = list_messages(&f);
    assert!(s.sql.starts_with("SELECT id, ts, via, source, target, content, meta, "));
    assert!(s.sql.ends_with(
        "FROM messages WHERE 1=1 AND source = ? AND target = ? AND (source = ? OR target = ?) \
         AND (source = ? OR target = ?) AND source <> ? AND (target IS NULL OR target <> ?) \
         AND ts >= ? AND ts <= ? ORDER BY ts DESC LIMIT ? OFFSET ?"
    ));
    assert_eq!(s.binds.len(), s.sql.matches('?').count());
    assert!(matches!(&s.binds[0], Bind::Text(t) if t == "s"));
    assert!(matches!(&s.binds[8], Bind::Text(t) if t == "1970-01-01T00:00:00+00:00"));
    assert!(matches!(&s.binds[10], Bind::Int(50)));
    assert!(matches!(&s.binds[11], Bind::Int(100)));
    let c = count_messages(&ListFilters::default());
    assert_eq!(c.sql, "SELECT COUNT(*) as c FROM messages WHERE 1=1");
    assert!(c.binds.is_empty());
}

#[test]
fn opening_makes_a_file_where_one_is_missing() {
    assert!(open("./x.db", false).create_file);
    assert!(!open("./x.db", true).create_file);
    assert!(!open(":memory:", false).create_file);
    assert_eq!(open(":memory:", false).max_connections, 5);
    assert_eq!(open(":memory:", false).statements.len(), initialize_schema().len());
}

fn bound<'q>(
    s: &'q Statement,
) -> sqlx::query::Query<'q, sqlx::Sqlite, sqlx::sqlite::SqliteArguments<'q>> {
    let mut q = sqlx::query(&s.sql);
    for b in &s.binds {
        q = match b {
            Bind::Text(t) => q.bind(t.clone()),
            Bind::Int(n) => q.bind(*n),
            Bind::Null => q.bind(None::<String>),
        };
    }
    q
}

fn stored(r: &sqlx::sqlite::SqliteRow) -> StoredRow {
    StoredRow {
        id: r.get("id"),
        ts: r.get("ts"),
        via: r.get("via"),
        source: r.get("source"),
        target: r.get("target"),
        content: r.get("content"),
        meta: r.get("meta"),
        delivered_to: r.get("delivered_to"),
        delivery_errors: r.get("delivery_errors"),
        sender_addr: r.get("sender_addr"),
        sender_session_id: r.get("sender_session_id"),
    }
}

#[test]
fn statements_run_against_a_database() {
    let runtime = tokio::runtime::Builder::new_current_thread().enable_all().build().unwrap();
    runtime.block_on(async {
        let pool = sqlx::sqlite::SqlitePoolOptions::new()
            .max_connections(1)
            .connect("sqlite::memory:")
            .await
            .unwrap();
        for s in open(":memory:", false).statements.iter().chain(initialize_schema().iter()) {
            bound(s).execute(&pool).await.unwrap();
        }
        let rows = [
            message(1, "alice", Some("bob"), 10),
            message(2, "bob", Some("alice"), 20),
            message(3, "carol", None, 30),
            message(4, "alice", Some("carol"), 40),
            message(5, "dave", Some("alice"), 50),
        ];
        for m in &rows {
            bound(&insert_message(m)).execute(&pool).await.unwrap();
        }
        let list = |f: ListFilters| {
            let pool = pool.clone();
            async move {
                let found = bound(&list_messages(&f)).fetch_all(&pool).await.unwrap();
                let total: i64 = bound(&count_messages(&f)).fetch_one(&pool).await.unwrap().get("c");
                let stored: Vec<StoredRow> = found.iter().map(stored).collect();
                let ids: Vec<u128> =
                    rows_to_messages(&stored).unwrap().iter().map(|m| m.id).collect();
                (ids, total)
            }
        };
        let base = || ListFilters { limit: 50, ..ListFilters::default() };
        assert_eq!(list(base()).await, (vec![5, 4, 3, 2, 1], 5));
        assert_eq!(
            list(ListFilters { limit: 2, offset: 2, ..base() }).await,
            (vec![3, 2], 5)
        );
        let conversation = ListFilters {
            participant_a: Some("alice".to_string()),
            participant_b: Some("bob".to_string()),
            ..base()
        };
        assert_eq!(list(conversation).await, (vec![2, 1], 2));
        let hidden = ListFilters {
            exclude: vec!["bob".to_string(), "dave".to_string()],
            ..base()
        };
        assert_eq!(list(hidden).await, (vec![4, 3], 2));
        let one_way = ListFilters {
            source: Some("alice".to_string()),
            target: Some("carol".to_string()),
            ..base()
        };
        assert_eq!(list(one_way).await, (vec![4], 1));
        let range = ListFilters {
            since: Some(Timestamp { secs: 20, nanos: 123_456_789 }),
            until: Some(Timestamp { secs: 31, nanos: 0 }),
            ..base()
        };
        assert_eq!(list(range).await, (vec![3, 2], 2));

        let found = bound(&get_message(4)).fetch_optional(&pool).await.unwrap().unwrap();
        assert!(same(&row_to_message(&stored(&found)).unwrap(), &rows[3]));
        assert!(bound(&insert_message(&rows[3])).execute(&pool).await.is_err());
        let mut joined: Vec<u128> = Vec::new();
        for page in 0..3 {
            joined.extend(list(ListFilters { limit: 2, offset: 2 * page, ..base() }).await.0);
        }
        assert_eq!(joined, vec![5, 4, 3, 2, 1]);
        assert!(bound(&get_message(9)).fetch_optional(&pool).await.unwrap().is_none());

        let labels = |s: Statement, column: &'static str| {
            let pool = pool.clone();
            async move {
                let rows = bound(&s).fetch_all(&pool).await.unwrap();
                rows.iter().map(|r| r.get::<String, _>(column)).collect::<Vec<String>>()
            }
        };
        assert_eq!(
            labels(distinct_labels("source"), "source").await,
            vec!["alice", "bob", "carol", "dave"]
        );
        assert_eq!(
            labels(distinct_labels("target"), "target").await,
            vec!["alice", "bob", "carol"]
        );
        assert_eq!(
            labels(distinct_participants(), "label").await,
            vec!["alice", "bob", "carol", "dave"]
        );
    });
}
