use agent_salon::admin::{
    detail_page, detail_reply, display_tz, format_ts, list_filters, list_page, list_reply,
    page_number, pagination_url, parse_display_datetime, render_detail_page, render_error,
    render_list_page, render_select, truncate, urlencoding, ListQuery, ListResults, STYLE,
};
use agent_salon::db::{MessageRow, Via};
use agent_salon::time::Timestamp;
use serde_json::Value;

fn query() -> ListQuery {
    ListQuery::default()
}

fn message() -> MessageRow {
    let mut meta = serde_json::Map::new();
    meta.insert("b".to_string(), Value::from("<x>"));
    meta.insert("a".to_string(), Value::from(1));
    MessageRow {
        id: 1,
        ts: Timestamp { secs: 1_767_225_600, nanos: 0 },
        via: Via::Tool,
        source: "a<b".to_string(),
        target: None,
        content: "x & y".to_string(),
        meta: Value::Object(meta),
        delivered_to: Vec::new(),
        delivery_errors: vec!["p".to_string(), "q".to_string()],
        sender_addr: None,
        sender_session_id: Some("sid".to_string()),
    }
}

#[test]
fn times_are_shown_in_japan() {
    assert_eq!(display_tz(), 9 * 3600);
    assert_eq!(format_ts(Timestamp { secs: 1_767_225_600, nanos: 0 }), "2026-01-01 09:00:00");
    assert_eq!(format_ts(Timestamp { secs: -1, nanos: 999 }), "1970-01-01 08:59:59");
}

#[test]
fn form_times_are_meant_in_japan() {
    let at = |s: &str| parse_display_datetime(Some(s)).map(|t| (t.secs, t.nanos));
    assert_eq!(at("1970-01-01T09:00"), Some((0, 0)));
    assert_eq!(at("  1970-01-01T09:00:05 "), Some((5, 0)));
    assert_eq!(at("1970-01-01T09:00:60"), Some((59, 1_000_000_000)));
    assert_eq!(at("1970-01-01"), None);
    assert_eq!(at("1970-13-01T09:00"), None);
    assert_eq!(at("   "), None);
    assert_eq!(at(""), None);
    assert_eq!(parse_display_datetime(None), None);
    // Before the first second that the calendar holds.
    assert_eq!(at("-262143-01-01T00:00"), None);
}

#[test]
fn queries_become_filters() {
    let f = list_filters(&ListQuery {
        source: Some("s".to_string()),
        target: Some(String::new()),
        participant_a: Some("a".to_string()),
        exclude: Some(" x, ,y ".to_string()),
        since: Some("1970-01-01T09:00".to_string()),
        until: Some("soon".to_string()),
        page: Some(3),
        ..query()
    });
    assert_eq!(f.source.as_deref(), Some("s"));
    assert_eq!(f.target, None);
    assert_eq!(f.participant_a.as_deref(), Some("a"));
    assert_eq!(f.participant_b, None);
    assert_eq!(f.exclude, vec!["x", "y"]);
    assert_eq!(f.since, Some(Timestamp { secs: 0, nanos: 0 }));
    assert_eq!(f.until, None);
    assert_eq!((f.limit, f.offset), (50, 150));
    assert_eq!(page_number(&ListQuery { page: Some(-4), ..query() }), 0);
    assert_eq!(page_number(&query()), 0);
}

#[test]
fn a_page_too_far_on_is_not_asked_for() {
    assert!(list_page(&ListQuery { page: Some(i64::MAX), ..query() }).is_none());
    let plan = list_page(&ListQuery { page: Some(i64::MAX / 50), ..query() }).unwrap();
    assert_eq!(plan.page, i64::MAX / 50);
    let plan = list_page(&query()).unwrap();
    assert_eq!(plan.page, 0);
    assert!(plan.messages.sql.ends_with("WHERE 1=1 ORDER BY ts DESC LIMIT ? OFFSET ?"));
    assert!(plan.total.sql.starts_with("SELECT COUNT(*)"));
    assert_eq!(
        plan.sources.sql,
        "SELECT DISTINCT source FROM messages WHERE source IS NOT NULL ORDER BY source"
    );
    assert_eq!(
        plan.targets.sql,
        "SELECT DISTINCT target FROM messages WHERE target IS NOT NULL ORDER BY target"
    );
    assert!(plan.participants.sql.starts_with("SELECT DISTINCT label"));
}

#[test]
fn encodes_for_urls() {
    assert_eq!(urlencoding("AZaz09-_.~"), "AZaz09-_.~");
    assert_eq!(urlencoding("a b&c=d/%"), "a%20b%26c%3Dd%2F%25");
    assert_eq!(urlencoding("\u{3042}\u{1f600}"), "%E3%81%82%F0%9F%98%80");
    assert_eq!(urlencoding(""), "");
    assert_ne!(urlencoding("%20"), urlencoding(" "));
}

#[test]
fn page_urls_keep_the_filters() {
    assert_eq!(pagination_url(&query(), 2), "/admin?page=2");
    assert_eq!(pagination_url(&query(), -1), "/admin?page=-1");
    let q = ListQuery {
        source: Some("a b".to_string()),
        target: Some(String::new()),
        participant_a: Some("p".to_string()),
        participant_b: Some("q".to_string()),
        exclude: Some("x,y".to_string()),
        since: Some("1970-01-01T09:00".to_string()),
        until: None,
        page: Some(9),
    };
    assert_eq!(
        pagination_url(&q, 10),
        "/admin?source=a%20b&participant_a=p&participant_b=q&exclude=x%2Cy&\
         since=1970-01-01T09%3A00&page=10"
    );
}

#[test]
fn long_text_is_cut() {
    assert_eq!(truncate("abc", 3), "abc");
    assert_eq!(truncate("abcd", 3), "abc\u{2026}");
    assert_eq!(truncate("\u{3042}\u{3044}\u{3046}", 2), "\u{3042}\u{3044}\u{2026}");
    assert_eq!(truncate("a", 0), "\u{2026}");
    assert_eq!(truncate("", 0), "");
}

#[test]
fn only_markup_is_escaped() {
    let option = vec!["'/`=&amp;\u{3042}".to_string()];
    assert!(render_select("n", &None, &option).contains(
        "<option value=\"'/`=&amp;amp;\u{3042}\">'/`=&amp;amp;\u{3042}</option>\n"
    ));
}

#[test]
fn choices_mark_the_current_one() {
    let options = vec!["a".to_string(), "\"<".to_string()];
    assert_eq!(
        render_select("source", &Some("\"<".to_string()), &options),
        "<label>source\n<select name=\"source\">\n<option value=\"\">(any)</option>\n\
         <option value=\"a\">a</option>\n\
         <option value=\"&quot;&lt;\" selected>\"&lt;</option>\n</select></label>\n"
    );
}

fn page(q: &ListQuery, messages: Vec<MessageRow>, total: i64, page: i64) -> String {
    let none = Vec::new();
    render_list_page(q, &messages, total, page, &none, &none, &none)
}

#[test]
fn the_list_page_is_exact() {
    let select = |name: &str| {
        format!(
            "<label>{name}\n<select name=\"{name}\">\n<option value=\"\">(any)</option>\n\
             </select></label>\n"
        )
    };
    let q = ListQuery {
        exclude: Some("\"x".to_string()),
        since: Some("s&".to_string()),
        ..query()
    };
    let expected = format!(
        "{STYLE}\n<h1>agent-salon &middot; messages</h1>\n\
         <form method=\"get\" action=\"/admin\" class=\"filters\">\n\
         <fieldset class=\"group\"><legend>conversation</legend>\n{}\
         <span class=\"sep\">&harr;</span>\n{}</fieldset>\n\
         <fieldset class=\"group\"><legend>one-way</legend>\n{}\
         <span class=\"sep\">&rarr;</span>\n{}</fieldset>\n\
         <fieldset class=\"group\"><legend>hide</legend>\n\
         <label>exclude<input type=\"text\" name=\"exclude\" value=\"&quot;x\"></label>\n\
         </fieldset>\n\
         <fieldset class=\"group\"><legend>time (JST)</legend>\n\
         <label>since<input type=\"datetime-local\" name=\"since\" value=\"s&amp;\"></label>\n\
         <label>until<input type=\"datetime-local\" name=\"until\" value=\"\"></label>\n\
         </fieldset>\n\
         <div class=\"buttons\"><button type=\"submit\">apply</button> \
         <a href=\"/admin\">reset</a></div>\n</form>\n\
         <p class=\"meta\">1 total &middot; showing 1-1</p>\n<table>\n\
         <thead><tr><th>ts</th><th>via</th><th>source &rarr; target</th><th>content</th>\
         <th>delivered</th></tr></thead><tbody>\n\
         <tr><td class=\"ts\"><a href=\"/admin/messages/00000000-0000-0000-0000-000000000001\">\
         2026-01-01 09:00:00</a></td><td>tool</td><td>a&lt;b &rarr; (broadcast)</td>\
         <td class=\"content\">x &amp; y</td><td>\u{2014}</td></tr>\n</tbody></table>\n",
        select("participant_a"),
        select("participant_b"),
        select("source"),
        select("target"),
    );
    assert_eq!(page(&q, vec![message()], 1, 0), expected);
}

#[test]
fn pages_are_linked() {
    let tail = |total: i64, n: i64| {
        let html = page(&query(), Vec::new(), total, n);
        html[html.find("</table>\n").unwrap() + 9..].to_string()
    };
    assert_eq!(tail(50, 0), "");
    assert_eq!(tail(0, 0), "");
    assert_eq!(tail(-100, 0), "");
    assert_eq!(
        tail(51, 0),
        "<nav class=\"pagination\">\n<span>page 1 / 2</span>\n\
         <a href=\"/admin?page=1\">next &raquo;</a>\n</nav>\n"
    );
    assert_eq!(
        tail(150, 1),
        "<nav class=\"pagination\">\n<a href=\"/admin?page=0\">&laquo; prev</a>\n\
         <span>page 2 / 3</span>\n<a href=\"/admin?page=2\">next &raquo;</a>\n</nav>\n"
    );
    assert!(tail(i64::MAX, 0).contains("page 1 / 184467440737095517"));
    assert!(page(&query(), Vec::new(), 7, 2).contains("7 total &middot; showing 101-100<"));
}

#[test]
fn the_detail_page_is_exact() {
    assert_eq!(
        render_detail_page(&message()),
        format!(
            "{STYLE}\n<p><a href=\"/admin\">&laquo; back</a></p>\
             <h1>message 00000000-0000-0000-0000-000000000001</h1>\n<dl>\n\
             <dt>ts</dt><dd>2026-01-01 09:00:00</dd>\n<dt>via</dt><dd>tool</dd>\n\
             <dt>source</dt><dd>a&lt;b</dd>\n<dt>target</dt><dd>(broadcast)</dd>\n\
             <dt>delivered_to</dt><dd>(none)</dd>\n<dt>delivery_errors</dt><dd>p, q</dd>\n\
             <dt>sender_addr</dt><dd>\u{2014}</dd>\n<dt>sender_session_id</dt><dd>sid</dd>\n\
             </dl>\n<h2>content</h2><pre class=\"content\">x &amp; y</pre>\n\
             <h2>meta</h2><pre>{{\n  \"a\": 1,\n  \"b\": \"&lt;x&gt;\"\n}}</pre>\n"
        )
    );
}

#[test]
fn an_identifier_is_asked_for() {
    let s = detail_page("00000000-0000-0000-0000-0000000000ff").ok().unwrap();
    assert!(s.sql.ends_with("WHERE id = ?"));
    assert_eq!(s.binds.len(), 1);
    let bad = detail_page("42").err().unwrap();
    assert_eq!((bad.status, bad.body.as_str()), (400, "invalid id"));
    assert_eq!(bad.content_type, "text/plain; charset=utf-8");
}

#[test]
fn replies_tell_what_was_found() {
    let found = detail_reply(Ok(Some(message())));
    assert_eq!((found.status, found.content_type), (200, "text/html; charset=utf-8"));
    assert_eq!(found.body, render_detail_page(&message()));
    let gone = detail_reply(Ok(None));
    assert_eq!((gone.status, gone.body.as_str()), (404, "not found"));
    let failed = detail_reply(Err("a<b".to_string()));
    assert_eq!(failed.status, 500);
    assert_eq!(failed.body, format!("{STYLE}\n<h1>error</h1><pre>query failed: a&lt;b</pre>"));
    assert_eq!(render_error("e").body, format!("{STYLE}\n<h1>error</h1><pre>e</pre>"));
}

#[test]
fn the_list_survives_missing_counts() {
    let nothing = |messages| ListResults {
        messages,
        total: None,
        sources: None,
        targets: None,
        participants: None,
    };
    let ok = list_reply(&query(), 0, nothing(Ok(vec![message()])));
    assert_eq!(ok.status, 200);
    assert_eq!(ok.body, page(&query(), vec![message()], 0, 0));
    let failed = list_reply(&query(), 0, nothing(Err("locked".to_string())));
    assert_eq!(failed.status, 500);
    assert!(failed.body.ends_with("<pre>query failed: locked</pre>"));
}
