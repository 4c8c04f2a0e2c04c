//! The admin pages: what they list, and how they look.
use crate::config::{law_hosts_are_trimmed, parse_list, trimmed_parts};
use crate::db::{
    count_messages, count_statement, distinct_labels, distinct_participants, distinct_statement,
    get_message, get_statement, law_both_participants_are_asked_for, law_labels_are_asked_for,
    lemma_selects, list_messages, list_statement, participants_statement, BindView, ListFilters,
    MessageRow, MessageView, Statement, StatementView, StoredView, Via,
};
use crate::html::{
    encode_attribute, encode_text, escaped_attribute, escaped_text, lemma_plain_text,
};
use crate::http::{html_reply, text_reply, Reply, ReplyView};
use crate::ids::{id_string, id_text, parse_id, parsed_id};
use crate::json::{pretty, pretty_json, text_less};
use crate::text::{
    chars_of, decimal_int, digit, expand, i64_text, join, join_strings, lacks,
    law_joined_parts_are_split_again, lemma_expand_injective, lemma_expand_within, lemma_shows,
    opt_view, prefix_free, same, shows, split, str_or, string_of, trim, trim_str, views,
};
use crate::time::{
    at_offset, earlier, format_at, formatted, in_four_digit_years, law_calendar_runs_forward,
    law_every_second_has_a_date, lemma_local_to_utc_wf, lemma_seconds_of_dates, local_to_utc,
    minute_format, naive_time, parse_naive, plain_format, second_format, two_digits, Timestamp,
    Wall,
};
use vstd::prelude::*;
use vstd::string::StringExecFns;
use vstd::utf8::{encode_utf8, encode_utf8_decode_utf8};

verus! {

/// How many messages stand on a page.
pub const PAGE_SIZE: i64 = 50;

/// The head of every page.
pub const STYLE: &'static str = r#"<!doctype html>
<meta charset="utf-8">
<title>agent-salon admin</title>
<style>
  body { font-family: ui-sans-serif, system-ui, -apple-system, "Helvetica Neue", sans-serif;
         margin: 1.5rem; color: #222; background: #fafafa; }
  h1 { margin-top: 0; font-weight: 600; }
  .filters { display: flex; flex-wrap: wrap; gap: 0.5rem 0.75rem; align-items: flex-end;
             padding: 0.5rem 0.75rem 0.75rem; background: #fff; border: 1px solid #e2e2e2;
             border-radius: 6px; margin-bottom: 1rem; }
  .filters .group { display: flex; gap: 0.5rem; align-items: flex-end;
                    border: 1px solid #e8e8e8; border-radius: 6px;
                    padding: 0.25rem 0.75rem 0.5rem; margin: 0; }
  .filters .group legend { font-size: 0.7rem; color: #888; padding: 0 0.25rem;
                           text-transform: uppercase; letter-spacing: 0.03em; }
  .filters .sep { align-self: center; color: #888; padding-bottom: 0.35rem; }
  .filters label { display: flex; flex-direction: column; font-size: 0.8rem;
                   color: #555; gap: 0.15rem; }
  .filters input, .filters select { padding: 0.3rem 0.45rem; border: 1px solid #ccc;
                                    border-radius: 4px; font: inherit; }
  .filters .buttons { display: flex; align-items: center; gap: 0.75rem;
                      padding-bottom: 0.1rem; }
  .filters button { padding: 0.35rem 0.9rem; background: #1a73e8; color: #fff;
                    border: 0; border-radius: 4px; cursor: pointer; }
  .filters a { color: #1a73e8; }
  .meta { color: #666; font-size: 0.85rem; }
  table { width: 100%; border-collapse: collapse; background: #fff; }
  th, td { text-align: left; padding: 0.4rem 0.6rem; border-bottom: 1px solid #eee;
           font-size: 0.9rem; vertical-align: top; }
  th { background: #f0f0f0; }
  td.ts a { color: #1a73e8; text-decoration: none; font-variant-numeric: tabular-nums; }
  td.content { max-width: 40rem; white-space: pre-wrap; word-break: break-word; }
  .pagination { margin-top: 1rem; display: flex; gap: 1rem; align-items: center; }
  pre { background: #f4f4f4; padding: 0.75rem; overflow: auto; border-radius: 4px;
        font-size: 0.85rem; }
  dl { display: grid; grid-template-columns: max-content 1fr; gap: 0.25rem 1rem;
       background: #fff; padding: 0.75rem 1rem; border: 1px solid #e2e2e2; border-radius: 6px; }
  dt { color: #666; }
  dd { margin: 0; font-variant-numeric: tabular-nums; }
</style>
"#;

/// Seconds east of UTC at which times are shown, and at which the times of the
/// filter form are meant: Japan's.
pub fn display_tz() -> (r: i32)
    ensures
        r == 32_400,
{
    32_400
}

// ---------------------------------------------------------------------------
// The query
// ---------------------------------------------------------------------------

/// Query parameters for `GET /admin`. Mirrors the form's field names, so that
/// the form just submits back to the same URL.
#[derive(Debug, Clone)]
pub struct ListQuery {
    pub source: Option<String>,
    pub target: Option<String>,
    /// Conversation filter: each of these must appear as either source or
    /// target. With both set, pulls up every message exchanged between the
    /// two participants (both directions).
    pub participant_a: Option<String>,
    pub participant_b: Option<String>,
    /// Comma-separated labels to hide, as source or as target.
    pub exclude: Option<String>,
    /// ISO-like local datetime: `YYYY-MM-DDTHH:MM` (datetime-local input).
    pub since: Option<String>,
    pub until: Option<String>,
    pub page: Option<i64>,
}

/// A query over characters.
#[verifier::ext_equal]
pub struct QueryView {
    pub source: Option<Seq<char>>,
    pub target: Option<Seq<char>>,
    pub participant_a: Option<Seq<char>>,
    pub participant_b: Option<Seq<char>>,
    pub exclude: Option<Seq<char>>,
    pub since: Option<Seq<char>>,
    pub until: Option<Seq<char>>,
    pub page: Option<i64>,
}

impl View for ListQuery {
    type V = QueryView;

    open spec fn view(&self) -> QueryView {
        QueryView {
            source: opt_view(self.source),
            target: opt_view(self.target),
            participant_a: opt_view(self.participant_a),
            participant_b: opt_view(self.participant_b),
            exclude: opt_view(self.exclude),
            since: opt_view(self.since),
            until: opt_view(self.until),
            page: self.page,
        }
    }
}

impl Default for ListQuery {
    fn default() -> (r: Self)
        ensures
            r@ == (QueryView {
                source: None,
                target: None,
                participant_a: None,
                participant_b: None,
                exclude: None,
                since: None,
                until: None,
                page: None,
            }),
    {
        ListQuery {
            source: None,
            target: None,
            participant_a: None,
            participant_b: None,
            exclude: None,
            since: None,
            until: None,
            page: None,
        }
    }
}

/// A parameter that holds anything. The form submits an empty one for "any".
pub open spec fn filled(o: Option<Seq<char>>) -> Option<Seq<char>> {
    match o {
        Some(s) => if s.len() > 0 {
            Some(s)
        } else {
            None
        },
        None => None,
    }
}

fn if_filled(o: &Option<String>) -> (r: Option<String>)
    ensures
        opt_view(r) == filled(opt_view(*o)),
{
    match o {
        Some(s) => if s.as_str().is_empty() {
            None
        } else {
            Some(s.clone())
        },
        None => None,
    }
}

/// The page that a query asks for. There is none below the first.
pub open spec fn page_of(q: QueryView) -> int {
    match q.page {
        Some(p) => if p < 0 {
            0
        } else {
            p as int
        },
        None => 0,
    }
}

/// The labels that a query hides.
pub open spec fn hidden_labels(q: QueryView) -> Seq<Seq<char>> {
    match q.exclude {
        Some(s) => trimmed_parts(split(s, ',')),
        None => Seq::empty(),
    }
}

// ---------------------------------------------------------------------------
// Times
// ---------------------------------------------------------------------------

/// What the calendar and the clock show at a time where times are shown.
pub open spec fn wall_at(t: Timestamp) -> Wall {
    choose|w: Wall| w.valid() && #[trigger] w.secs() == t.secs + 32_400
}

/// How a time is shown: what the calendar and the clock show then, in digits. A
/// year of more than four digits is left to `chrono`.
pub open spec fn shown_time(t: Timestamp) -> Seq<char> {
    if in_four_digit_years(t.secs + 32_400) {
        wall_at(t).second_text('-', '-', ' ', ':', ':', t.nanos >= 1_000_000_000)
    } else {
        formatted(t.secs, t.nanos, 32_400, "%Y-%m-%d %H:%M:%S"@)
    }
}

/// How a time is shown.
pub fn format_ts(ts: Timestamp) -> (r: String)
    requires
        ts.wf(),
    ensures
        r@ == shown_time(ts),
        r@ == formatted(ts.secs, ts.nanos, 32_400, "%Y-%m-%d %H:%M:%S"@),
{
    proof {
        reveal_strlit("%Y-%m-%d %H:%M:%S");
        assert(plain_format("%Y-%m-%d %H:%M:%S"@));
        assert("%Y-%m-%d %H:%M:%S"@ =~= second_format('-', '-', ' ', ':', ':'));
        if in_four_digit_years(ts.secs + 32_400) {
            let w = law_every_second_has_a_date(ts.secs + 32_400);
            assert(w.valid() && w.secs() == ts.secs + 32_400);
        }
    }
    format_at(ts, display_tz(), "%Y-%m-%d %H:%M:%S")
}

/// The time of a wall clock where times are shown.
pub open spec fn local_time(naive: (i64, u32)) -> Option<Timestamp> {
    match local_to_utc(naive.0, naive.1, 32_400) {
        Some(t) => Some(Timestamp { secs: t.0, nanos: t.1 }),
        None => None,
    }
}

/// The time that a field of the form means, if it means one. A datetime field
/// gives minutes, or seconds too.
pub open spec fn meant_time(field: Option<Seq<char>>) -> Option<Timestamp> {
    match field {
        None => None,
        Some(s) => {
            let t = trim(s);
            if t.len() == 0 {
                None
            } else {
                match naive_time(t, "%Y-%m-%dT%H:%M"@) {
                    Some(naive) => local_time(naive),
                    None => match naive_time(t, "%Y-%m-%dT%H:%M:%S"@) {
                        Some(naive) => local_time(naive),
                        None => None,
                    },
                }
            }
        },
    }
}

/// Whether a field that holds a wall-clock time, to the minute or to the second,
/// is read as that time where times are shown.
pub open spec fn reads_wall_clock(field: Option<Seq<char>>, r: Option<Timestamp>) -> bool {
    &&& forall|w: Wall|
        w.valid() && w.second == 0 && field is Some && trim(field->Some_0)
            == #[trigger] w.minute_text('-', '-', 'T', ':') ==> r is Some && r->Some_0.secs
            == w.secs() - 32_400 && r->Some_0.nanos == 0
    &&& forall|w: Wall|
        w.valid() && field is Some && trim(field->Some_0) == #[trigger] w.second_text(
            '-',
            '-',
            'T',
            ':',
            ':',
            false,
        ) ==> r is Some && r->Some_0.secs == w.secs() - 32_400 && r->Some_0.nanos == 0
}

fn to_utc(naive: Timestamp) -> (r: Option<Timestamp>)
    requires
        naive.wf(),
    ensures
        r == local_time((naive.secs, naive.nanos)),
        r matches Some(t) ==> t.wf(),
{
    proof {
        lemma_local_to_utc_wf(naive.secs, naive.nanos, 32_400);
    }
    at_offset(naive, display_tz())
}

/// Parses a `datetime-local` input value as wall-clock time where times are
/// shown, and converts it to UTC for the query.
pub fn parse_display_datetime(s: Option<&str>) -> (r: Option<Timestamp>)
    ensures
        r == meant_time(
            match s {
                Some(s) => Some(s@),
                None => None,
            },
        ),
        reads_wall_clock(
            match s {
                Some(s) => Some(s@),
                None => None,
            },
            r,
        ),
        r matches Some(t) ==> t.wf(),
{
    let s = match s {
        Some(s) => trim_str(s),
        None => {
            return None;
        },
    };
    if s.as_str().is_empty() {
        return None;
    }
    proof {
        reveal_strlit("%Y-%m-%dT%H:%M");
        reveal_strlit("%Y-%m-%dT%H:%M:%S");
        assert(plain_format("%Y-%m-%dT%H:%M"@));
        assert(plain_format("%Y-%m-%dT%H:%M:%S"@));
        assert("%Y-%m-%dT%H:%M"@ =~= minute_format('-', '-', 'T', ':'));
        assert("%Y-%m-%dT%H:%M:%S"@ =~= second_format('-', '-', 'T', ':', ':'));
        assert forall|w: Wall| w.valid() implies in_four_digit_years(#[trigger] w.secs()) by {
            lemma_seconds_of_dates(w);
        }
    }
    match parse_naive(s.as_str(), "%Y-%m-%dT%H:%M") {
        Ok(naive) => to_utc(naive),
        Err(_) => match parse_naive(s.as_str(), "%Y-%m-%dT%H:%M:%S") {
            Ok(naive) => to_utc(naive),
            Err(_) => None,
        },
    }
}

fn time_in(field: &Option<String>) -> (r: Option<Timestamp>)
    ensures
        r == meant_time(opt_view(*field)),
        reads_wall_clock(opt_view(*field), r),
        r matches Some(t) ==> t.wf(),
{
    match field {
        Some(s) => parse_display_datetime(Some(s.as_str())),
        None => None,
    }
}

// ---------------------------------------------------------------------------
// The filters
// ---------------------------------------------------------------------------

/// Whether filters are those of a query.
pub open spec fn are_filters_of(f: ListFilters, q: QueryView) -> bool {
    &&& opt_view(f.source) == filled(q.source)
    &&& opt_view(f.target) == filled(q.target)
    &&& opt_view(f.participant_a) == filled(q.participant_a)
    &&& opt_view(f.participant_b) == filled(q.participant_b)
    &&& views(f.exclude@) == hidden_labels(q)
    &&& f.since == meant_time(q.since)
    &&& f.until == meant_time(q.until)
    &&& reads_wall_clock(q.since, f.since)
    &&& reads_wall_clock(q.until, f.until)
    &&& f.limit == PAGE_SIZE
    &&& f.offset == page_of(q) * PAGE_SIZE
}

/// The page that a query asks for.
pub fn page_number(q: &ListQuery) -> (r: i64)
    ensures
        r == page_of(q@),
{
    match q.page {
        Some(p) => if p < 0 {
            0
        } else {
            p
        },
        None => 0,
    }
}

/// The filters of a query.
pub fn list_filters(q: &ListQuery) -> (r: ListFilters)
    requires
        page_of(q@) * PAGE_SIZE <= i64::MAX,
    ensures
        are_filters_of(r, q@),
        r.wf(),
{
    let exclude = match &q.exclude {
        Some(s) => parse_list(s.as_str()),
        None => Vec::new(),
    };
    proof {
        if q.exclude is None {
            assert(views(exclude@) =~= Seq::empty());
        }
    }
    ListFilters {
        source: if_filled(&q.source),
        target: if_filled(&q.target),
        participant_a: if_filled(&q.participant_a),
        participant_b: if_filled(&q.participant_b),
        exclude,
        since: time_in(&q.since),
        until: time_in(&q.until),
        limit: PAGE_SIZE,
        offset: page_number(q) * PAGE_SIZE,
    }
}

// ---------------------------------------------------------------------------
// URLs
// ---------------------------------------------------------------------------

/// The bytes that stand for themselves in a query.
pub open spec fn unreserved(b: u8) -> bool {
    ||| 65 <= b <= 90
    ||| 97 <= b <= 122
    ||| 48 <= b <= 57
    ||| b == 45
    ||| b == 95
    ||| b == 46
    ||| b == 126
}

/// The hexadecimal digit, in upper case, of a number below sixteen.
pub open spec fn upper_hex(d: int) -> char {
    if d < 10 {
        (48 + d) as char
    } else {
        (55 + d) as char
    }
}

/// How a byte stands in a query.
pub open spec fn url_code(b: u8) -> Seq<char> {
    if unreserved(b) {
        seq![b as char]
    } else {
        seq!['%', upper_hex(b as int / 16), upper_hex(b as int % 16)]
    }
}

/// How a text stands in a query: its UTF-8 bytes, percent-encoded where they
/// are not unreserved.
pub open spec fn url_encoded(s: Seq<char>) -> Seq<char> {
    expand(encode_utf8(s), |b: u8| url_code(b))
}

fn hex_char(d: u8) -> (r: char)
    requires
        d < 16,
    ensures
        r == upper_hex(d as int),
{
    let code: u8 = if d < 10 {
        48 + d
    } else {
        55 + d
    };
    code as char
}

proof fn lemma_expand_push<A>(s: Seq<A>, x: A, code: spec_fn(A) -> Seq<char>)
    ensures
        expand(s.push(x), code) == expand(s, code) + code(x),
    decreases s.len(),
{
    if s.len() == 0 {
        assert(s.push(x).skip(1) =~= Seq::empty());
        assert(expand(s.push(x), code) =~= code(x) + expand(Seq::empty(), code));
        assert(expand(s, code) + code(x) =~= code(x));
        assert(expand(s.push(x), code) =~= code(x));
    } else {
        assert(s.push(x).skip(1) =~= s.skip(1).push(x));
        lemma_expand_push(s.skip(1), x, code);
        assert(expand(s.push(x), code) =~= expand(s, code) + code(x));
    }
}

/// Percent-encodes a text for a query.
pub fn urlencoding(s: &str) -> (r: String)
    ensures
        r@ == url_encoded(s@),
{
    let bytes = s.as_bytes();
    let ghost code = |b: u8| url_code(b);
    let mut out = String::new();
    let mut i: usize = 0;
    proof {
        assert(bytes@.take(0) =~= Seq::empty());
    }
    while i < bytes.len()
        invariant
            i <= bytes@.len(),
            code == (|b: u8| url_code(b)),
            out@ == expand(bytes@.take(i as int), code),
        decreases bytes@.len() - i,
    {
        let b = bytes[i];
        proof {
            assert(bytes@.take(i + 1) =~= bytes@.take(i as int).push(b));
            lemma_expand_push(bytes@.take(i as int), b, code);
        }
        let ghost had = out@;
        if (65 <= b && b <= 90) || (97 <= b && b <= 122) || (48 <= b && b <= 57) || b == 45 || b
            == 95 || b == 46 || b == 126 {
            out.push(b as char);
            proof {
                assert(out@ =~= had + code(b));
            }
        } else {
            out.push('%');
            out.push(hex_char(b / 16));
            out.push(hex_char(b % 16));
            proof {
                assert(out@ =~= had + code(b));
            }
        }
        i += 1;
    }
    proof {
        assert(bytes@.take(i as int) =~= bytes@);
    }
    out
}

proof fn lemma_url_code(b: u8, c: u8)
    ensures
        b != c ==> !url_code(b).is_prefix_of(url_code(c)),
        forall|i: int|
            0 <= i < url_code(b).len() ==> (#[trigger] url_code(b)[i] == '%' || unreserved(
                url_code(b)[i] as u8,
            )) && (url_code(b)[i] as int) < 128,
{
    assert(upper_hex(b as int / 16) as int == if b as int / 16 < 10 {
        48 + b as int / 16
    } else {
        55 + b as int / 16
    });
    assert(upper_hex(b as int % 16) as int == if b as int % 16 < 10 {
        48 + b as int % 16
    } else {
        55 + b as int % 16
    });
    let x = url_code(b);
    let y = url_code(c);
    if b != c && x.is_prefix_of(y) {
        assert(x[0] == y[0]);
        if x.len() == 3 {
            assert(x[1] == y[1]);
            assert(x[2] == y[2]);
            assert(b as int / 16 == c as int / 16);
            assert(b as int % 16 == c as int % 16);
            assert(b as int == c as int);
        }
    }
}

/// Percent-encoded text holds nothing but unreserved characters and percent
/// signs: it cannot end the parameter that it stands in.
pub proof fn law_encoded_text_stays_inside(s: Seq<char>)
    ensures
        forall|i: int|
            0 <= i < url_encoded(s).len() ==> (#[trigger] url_encoded(s)[i] == '%' || unreserved(
                url_encoded(s)[i] as u8,
            )) && (url_encoded(s)[i] as int) < 128,
{
    let code = |b: u8| url_code(b);
    let good = |c: char| (c == '%' || unreserved(c as u8)) && (c as int) < 128;
    assert forall|b: u8, i: int| 0 <= i < (#[trigger] code(b)).len() implies good(
        #[trigger] code(b)[i],
    ) by {
        lemma_url_code(b, b);
        assert(code(b)[i] == url_code(b)[i]);
    }
    lemma_expand_within(encode_utf8(s), code, good);
    assert forall|i: int| 0 <= i < url_encoded(s).len() implies (#[trigger] url_encoded(s)[i] == '%'
        || unreserved(url_encoded(s)[i] as u8)) && (url_encoded(s)[i] as int) < 128 by {
        assert(good(expand(encode_utf8(s), code)[i]));
    }
}

/// Percent-encoding loses nothing: different texts are encoded differently.
pub proof fn law_encoding_is_injective(a: Seq<char>, b: Seq<char>)
    requires
        url_encoded(a) == url_encoded(b),
    ensures
        a == b,
{
    let code = |b: u8| url_code(b);
    assert forall|c: u8, d: u8| c != d implies !(#[trigger] code(c)).is_prefix_of(
        #[trigger] code(d),
    ) by {
        lemma_url_code(c, d);
    }
    assert(prefix_free(code));
    lemma_expand_injective(encode_utf8(a), encode_utf8(b), code);
    encode_utf8_decode_utf8(a);
    encode_utf8_decode_utf8(b);
}

/// A parameter of a URL, where it holds anything.
pub open spec fn pair_if(key: Seq<char>, value: Option<Seq<char>>) -> Seq<Seq<char>> {
    match filled(value) {
        Some(v) => seq![key + "="@ + url_encoded(v)],
        None => Seq::empty(),
    }
}

/// The parameters of the URL of a page.
pub open spec fn url_pairs(q: QueryView, page: int) -> Seq<Seq<char>> {
    pair_if("source"@, q.source) + pair_if("target"@, q.target) + pair_if(
        "participant_a"@,
        q.participant_a,
    ) + pair_if("participant_b"@, q.participant_b) + pair_if("exclude"@, q.exclude) + pair_if(
        "since"@,
        q.since,
    ) + pair_if("until"@, q.until) + seq!["page"@ + "="@ + url_encoded(decimal_int(page))]
}

/// The URL of a page under the filters of a query.
pub open spec fn page_url(q: QueryView, page: int) -> Seq<char> {
    "/admin?"@ + join(url_pairs(q, page), "&"@)
}

fn push_pair(pairs: &mut Vec<String>, key: &str, value: &str)
    ensures
        views(final(pairs)@) == views(old(pairs)@).push(key@ + "="@ + url_encoded(value@)),
{
    let ghost had = views(pairs@);
    let mut pair = key.to_owned();
    pair.append("=");
    pair.append(urlencoding(value).as_str());
    pairs.push(pair);
    proof {
        assert(views(pairs@) =~= had.push(key@ + "="@ + url_encoded(value@)));
    }
}

fn push_non_empty(pairs: &mut Vec<String>, key: &str, value: &Option<String>)
    ensures
        views(final(pairs)@) == views(old(pairs)@) + pair_if(key@, opt_view(*value)),
{
    let ghost had = views(pairs@);
    if let Some(v) = if_filled(value) {
        push_pair(pairs, key, v.as_str());
    }
    proof {
        assert(views(pairs@) =~= had + pair_if(key@, opt_view(*value)));
    }
}

/// The URL of a page under the filters of a query.
pub fn pagination_url(q: &ListQuery, page: i64) -> (r: String)
    ensures
        r@ == page_url(q@, page as int),
{
    let mut pairs: Vec<String> = Vec::new();
    proof {
        assert(views(pairs@) =~= Seq::empty());
        assert(Seq::empty() + pair_if("source"@, q@.source) =~= pair_if("source"@, q@.source));
    }
    push_non_empty(&mut pairs, "source", &q.source);
    push_non_empty(&mut pairs, "target", &q.target);
    push_non_empty(&mut pairs, "participant_a", &q.participant_a);
    push_non_empty(&mut pairs, "participant_b", &q.participant_b);
    push_non_empty(&mut pairs, "exclude", &q.exclude);
    push_non_empty(&mut pairs, "since", &q.since);
    push_non_empty(&mut pairs, "until", &q.until);
    push_pair(&mut pairs, "page", i64_text(page).as_str());
    proof {
        assert(views(pairs@) =~= url_pairs(q@, page as int));
    }
    let mut r = "/admin?".to_owned();
    r.append(join_strings(&pairs, "&").as_str());
    r
}

// ---------------------------------------------------------------------------
// Pieces of a page
// ---------------------------------------------------------------------------

/// The first characters of a text, and an ellipsis where there are more.
pub open spec fn truncated(s: Seq<char>, max: nat) -> Seq<char> {
    if s.len() <= max {
        s
    } else {
        s.take(max as int).push('\u{2026}')
    }
}

/// The first characters of a text, and an ellipsis where there are more.
pub fn truncate(s: &str, max: usize) -> (r: String)
    ensures
        r@ == truncated(s@, max as nat),
{
    let cs = chars_of(s);
    if cs.len() <= max {
        s.to_owned()
    } else {
        let mut out = string_of(&cs, 0, max);
        out.push('\u{2026}');
        out
    }
}

/// One option of a choice.
pub open spec fn option_text(option: Seq<char>, current: Option<Seq<char>>) -> Seq<char> {
    "<option value=\""@ + escaped_attribute(option) + "\""@ + (if current == Some(option) {
        " selected"@
    } else {
        ""@
    }) + ">"@ + escaped_text(option) + "</option>\n"@
}

/// The options of a choice.
pub open spec fn options_text(options: Seq<Seq<char>>, current: Option<Seq<char>>) -> Seq<char>
    decreases options.len(),
{
    if options.len() == 0 {
        Seq::empty()
    } else {
        options_text(options.drop_last(), current) + option_text(options.last(), current)
    }
}

/// A choice of labels.
pub open spec fn select_text(
    name: Seq<char>,
    current: Option<Seq<char>>,
    options: Seq<Seq<char>>,
) -> Seq<char> {
    "<label>"@ + name + "\n<select name=\""@ + name + "\">\n<option value=\"\">(any)</option>\n"@
        + options_text(options, current) + "</select></label>\n"@
}

fn render_option(option: &str, current: &Option<String>) -> (r: String)
    ensures
        r@ == option_text(option@, opt_view(*current)),
{
    let selected = match current {
        Some(c) => same(c.as_str(), option),
        None => false,
    };
    let mut r = "<option value=\"".to_owned();
    r.append(encode_attribute(option).as_str());
    r.append("\"");
    r.append(
        if selected {
            " selected"
        } else {
            ""
        },
    );
    r.append(">");
    r.append(encode_text(option).as_str());
    r.append("</option>\n");
    r
}

/// Renders a choice of labels.
pub fn render_select(name: &str, current: &Option<String>, options: &Vec<String>) -> (r: String)
    ensures
        r@ == select_text(name@, opt_view(*current), views(options@)),
{
    let ghost all = views(options@);
    let mut list = String::new();
    let mut i: usize = 0;
    proof {
        assert(all.take(0).len() == 0);
    }
    while i < options.len()
        invariant
            i <= options@.len(),
            all == views(options@),
            list@ == options_text(all.take(i as int), opt_view(*current)),
        decreases options@.len() - i,
    {
        list.append(render_option(options[i].as_str(), current).as_str());
        proof {
            assert(all.take(i + 1).drop_last() =~= all.take(i as int));
            assert(all.take(i + 1).last() == options@[i as int]@);
        }
        i += 1;
    }
    proof {
        assert(all.take(i as int) =~= all);
    }
    let mut r = "<label>".to_owned();
    r.append(name);
    r.append("\n<select name=\"");
    r.append(name);
    r.append("\">\n<option value=\"\">(any)</option>\n");
    r.append(list.as_str());
    r.append("</select></label>\n");
    r
}

/// Labels one after another, or what is shown where there are none.
pub open spec fn label_list(labels: Seq<Seq<char>>, none: Seq<char>) -> Seq<char> {
    if labels.len() == 0 {
        none
    } else {
        join(labels, ", "@)
    }
}

fn list_labels(labels: &Vec<String>, none: &str) -> (r: String)
    ensures
        r@ == label_list(views(labels@), none@),
{
    if labels.len() == 0 {
        none.to_owned()
    } else {
        join_strings(labels, ", ")
    }
}

/// What an optional text is shown as.
pub open spec fn shown(o: Option<Seq<char>>, none: Seq<char>) -> Seq<char> {
    match o {
        Some(s) => s,
        None => none,
    }
}

/// The row of a message in the list.
pub open spec fn message_row(m: MessageView) -> Seq<char> {
    "<tr><td class=\"ts\"><a href=\"/admin/messages/"@ + escaped_attribute(id_text(m.id)) + "\">"@
        + escaped_text(shown_time(m.ts)) + "</a></td><td>"@ + escaped_text(m.via.name())
        + "</td><td>"@ + escaped_text(m.source) + " &rarr; "@ + escaped_text(
        shown(m.target, "(broadcast)"@),
    ) + "</td><td class=\"content\">"@ + escaped_text(truncated(m.content, 120)) + "</td><td>"@
        + escaped_text(label_list(m.delivered_to, "\u{2014}"@)) + "</td></tr>\n"@
}

/// The rows of a list of messages.
pub open spec fn message_rows(ms: Seq<MessageView>) -> Seq<char>
    decreases ms.len(),
{
    if ms.len() == 0 {
        Seq::empty()
    } else {
        message_rows(ms.drop_last()) + message_row(ms.last())
    }
}

/// The views of a list of messages.
pub open spec fn message_views(v: Seq<MessageRow>) -> Seq<MessageView> {
    v.map_values(|m: MessageRow| m@)
}

fn render_message_row(m: &MessageRow) -> (r: String)
    requires
        m.ts.wf(),
    ensures
        r@ == message_row(m@),
{
    let mut r = "<tr><td class=\"ts\"><a href=\"/admin/messages/".to_owned();
    r.append(encode_attribute(id_string(m.id).as_str()).as_str());
    r.append("\">");
    r.append(encode_text(format_ts(m.ts).as_str()).as_str());
    r.append("</a></td><td>");
    r.append(encode_text(m.via.as_str()).as_str());
    r.append("</td><td>");
    r.append(encode_text(m.source.as_str()).as_str());
    r.append(" &rarr; ");
    r.append(encode_text(str_or(&m.target, "(broadcast)")).as_str());
    r.append("</td><td class=\"content\">");
    r.append(encode_text(truncate(m.content.as_str(), 120).as_str()).as_str());
    r.append("</td><td>");
    r.append(encode_text(list_labels(&m.delivered_to, "\u{2014}").as_str()).as_str());
    r.append("</td></tr>\n");
    r
}

fn render_message_rows(ms: &Vec<MessageRow>) -> (r: String)
    requires
        forall|i: int| 0 <= i < ms@.len() ==> (#[trigger] ms@[i]).ts.wf(),
    ensures
        r@ == message_rows(message_views(ms@)),
{
    let ghost all = message_views(ms@);
    let mut r = String::new();
    let mut i: usize = 0;
    proof {
        assert(all.take(0).len() == 0);
    }
    while i < ms.len()
        invariant
            i <= ms@.len(),
            forall|i: int| 0 <= i < ms@.len() ==> (#[trigger] ms@[i]).ts.wf(),
            all == message_views(ms@),
            r@ == message_rows(all.take(i as int)),
        decreases ms@.len() - i,
    {
        r.append(render_message_row(&ms[i]).as_str());
        proof {
            assert(all.take(i + 1).drop_last() =~= all.take(i as int));
            assert(all.take(i + 1).last() == ms@[i as int]@);
        }
        i += 1;
    }
    proof {
        assert(all.take(i as int) =~= all);
    }
    r
}

// ---------------------------------------------------------------------------
// The list
// ---------------------------------------------------------------------------

/// How many pages so many messages take.
pub open spec fn page_count(total: int) -> int {
    if total > 0 {
        (total + PAGE_SIZE - 1) / (PAGE_SIZE as int)
    } else {
        0
    }
}

/// The page that a message stands on, both counted from zero.
pub open spec fn home_page(i: int) -> int {
    i / (PAGE_SIZE as int)
}

/// Every message stands on a page: the one whose offset it falls under.
pub proof fn law_pages_cover_the_messages(total: int, i: int)
    requires
        0 <= i < total,
    ensures
        0 <= home_page(i) < page_count(total),
        home_page(i) * PAGE_SIZE <= i < home_page(i) * PAGE_SIZE + PAGE_SIZE,
{
}

/// The filter form, with what it was last filled in with.
pub open spec fn form_text(
    q: QueryView,
    sources: Seq<Seq<char>>,
    targets: Seq<Seq<char>>,
    participants: Seq<Seq<char>>,
) -> Seq<char> {
    "<form method=\"get\" action=\"/admin\" class=\"filters\">\n"@
        + "<fieldset class=\"group\"><legend>conversation</legend>\n"@ + select_text(
        "participant_a"@,
        q.participant_a,
        participants,
    ) + "<span class=\"sep\">&harr;</span>\n"@ + select_text(
        "participant_b"@,
        q.participant_b,
        participants,
    ) + "</fieldset>\n<fieldset class=\"group\"><legend>one-way</legend>\n"@ + select_text(
        "source"@,
        q.source,
        sources,
    ) + "<span class=\"sep\">&rarr;</span>\n"@ + select_text("target"@, q.target, targets)
        + "</fieldset>\n<fieldset class=\"group\"><legend>hide</legend>\n"@
        + "<label>exclude<input type=\"text\" name=\"exclude\" value=\""@ + escaped_attribute(
        shown(q.exclude, ""@),
    ) + "\"></label>\n</fieldset>\n<fieldset class=\"group\"><legend>time (JST)</legend>\n"@
        + "<label>since<input type=\"datetime-local\" name=\"since\" value=\""@
        + escaped_attribute(shown(q.since, ""@)) + "\"></label>\n"@
        + "<label>until<input type=\"datetime-local\" name=\"until\" value=\""@
        + escaped_attribute(shown(q.until, ""@)) + "\"></label>\n</fieldset>\n"@
        + "<div class=\"buttons\"><button type=\"submit\">apply</button> <a href=\"/admin\">reset</a></div>\n</form>\n"@
}

fn render_form(
    q: &ListQuery,
    sources: &Vec<String>,
    targets: &Vec<String>,
    participants: &Vec<String>,
) -> (r: String)
    ensures
        r@ == form_text(q@, views(sources@), views(targets@), views(participants@)),
{
    let mut r = "<form method=\"get\" action=\"/admin\" class=\"filters\">\n".to_owned();
    r.append("<fieldset class=\"group\"><legend>conversation</legend>\n");
    r.append(render_select("participant_a", &q.participant_a, participants).as_str());
    r.append("<span class=\"sep\">&harr;</span>\n");
    r.append(render_select("participant_b", &q.participant_b, participants).as_str());
    r.append("</fieldset>\n<fieldset class=\"group\"><legend>one-way</legend>\n");
    r.append(render_select("source", &q.source, sources).as_str());
    r.append("<span class=\"sep\">&rarr;</span>\n");
    r.append(render_select("target", &q.target, targets).as_str());
    r.append("</fieldset>\n<fieldset class=\"group\"><legend>hide</legend>\n");
    r.append("<label>exclude<input type=\"text\" name=\"exclude\" value=\"");
    r.append(encode_attribute(str_or(&q.exclude, "")).as_str());
    r.append("\"></label>\n</fieldset>\n<fieldset class=\"group\"><legend>time (JST)</legend>\n");
    r.append("<label>since<input type=\"datetime-local\" name=\"since\" value=\"");
    r.append(encode_attribute(str_or(&q.since, "")).as_str());
    r.append("\"></label>\n");
    r.append("<label>until<input type=\"datetime-local\" name=\"until\" value=\"");
    r.append(encode_attribute(str_or(&q.until, "")).as_str());
    r.append("\"></label>\n</fieldset>\n");
    r.append(
        "<div class=\"buttons\"><button type=\"submit\">apply</button> <a href=\"/admin\">reset</a></div>\n</form>\n",
    );
    r
}

/// The link to a page under the filters of a query.
pub open spec fn page_link(q: QueryView, page: int, name: Seq<char>) -> Seq<char> {
    "<a href=\""@ + escaped_attribute(page_url(q, page)) + "\">"@ + name + "</a>\n"@
}

/// The links to the pages before and after one, where there is more than one
/// page in all.
pub open spec fn nav_text(q: QueryView, page: int, pages: int) -> Seq<char> {
    if pages > 1 {
        "<nav class=\"pagination\">\n"@ + (if page > 0 {
            page_link(q, page - 1, "&laquo; prev"@)
        } else {
            Seq::empty()
        }) + "<span>page "@ + decimal_int(page + 1) + " / "@ + decimal_int(pages) + "</span>\n"@
            + (if page + 1 < pages {
            page_link(q, page + 1, "next &raquo;"@)
        } else {
            Seq::empty()
        }) + "</nav>\n"@
    } else {
        Seq::empty()
    }
}

fn render_link(q: &ListQuery, page: i64, name: &str) -> (r: String)
    ensures
        r@ == page_link(q@, page as int, name@),
{
    let mut r = "<a href=\"".to_owned();
    r.append(encode_attribute(pagination_url(q, page).as_str()).as_str());
    r.append("\">");
    r.append(name);
    r.append("</a>\n");
    r
}

fn render_nav(q: &ListQuery, page: i64, pages: i64) -> (r: String)
    requires
        page < i64::MAX,
    ensures
        r@ == nav_text(q@, page as int, pages as int),
{
    if pages <= 1 {
        return String::new();
    }
    let prev = if page > 0 {
        render_link(q, page - 1, "&laquo; prev")
    } else {
        String::new()
    };
    let next = if page + 1 < pages {
        render_link(q, page + 1, "next &raquo;")
    } else {
        String::new()
    };
    let mut r = "<nav class=\"pagination\">\n".to_owned();
    r.append(prev.as_str());
    r.append("<span>page ");
    r.append(i64_text(page + 1).as_str());
    r.append(" / ");
    r.append(i64_text(pages).as_str());
    r.append("</span>\n");
    r.append(next.as_str());
    r.append("</nav>\n");
    r
}

/// What the list says of itself: how many messages there are in all, and which
/// of them stand on the page.
pub open spec fn summary_text(total: int, page: int, shown: int) -> Seq<char> {
    "<p class=\"meta\">"@ + decimal_int(total) + " total &middot; showing "@ + decimal_int(
        page * PAGE_SIZE + 1,
    ) + "-"@ + decimal_int(page * PAGE_SIZE + shown) + "</p>\n"@
}

/// The list of messages.
pub open spec fn list_text(
    q: QueryView,
    messages: Seq<MessageView>,
    total: int,
    page: int,
    sources: Seq<Seq<char>>,
    targets: Seq<Seq<char>>,
    participants: Seq<Seq<char>>,
) -> Seq<char> {
    STYLE@ + "\n<h1>agent-salon &middot; messages</h1>\n"@ + form_text(
        q,
        sources,
        targets,
        participants,
    ) + summary_text(total, page, messages.len() as int)
        + "<table>\n<thead><tr><th>ts</th><th>via</th><th>source &rarr; target</th><th>content</th><th>delivered</th></tr></thead><tbody>\n"@
        + message_rows(messages) + "</tbody></table>\n"@ + nav_text(q, page, page_count(total))
}

fn render_summary(total: i64, page: i64, shown: usize) -> (r: String)
    requires
        page >= 0,
        page * PAGE_SIZE + shown < i64::MAX,
    ensures
        r@ == summary_text(total as int, page as int, shown as int),
{
    let first: i64 = page * PAGE_SIZE + 1;
    let last: i64 = page * PAGE_SIZE + shown as i64;
    let mut r = "<p class=\"meta\">".to_owned();
    r.append(i64_text(total).as_str());
    r.append(" total &middot; showing ");
    r.append(i64_text(first).as_str());
    r.append("-");
    r.append(i64_text(last).as_str());
    r.append("</p>\n");
    r
}

/// Renders the list of messages on a page.
pub fn render_list_page(
    q: &ListQuery,
    messages: &Vec<MessageRow>,
    total: i64,
    page: i64,
    sources: &Vec<String>,
    targets: &Vec<String>,
    participants: &Vec<String>,
) -> (r: String)
    requires
        forall|i: int| 0 <= i < messages@.len() ==> (#[trigger] messages@[i]).ts.wf(),
        page >= 0,
        page * PAGE_SIZE + messages@.len() < i64::MAX,
    ensures
        r@ == list_text(
            q@,
            message_views(messages@),
            total as int,
            page as int,
            views(sources@),
            views(targets@),
            views(participants@),
        ),
{
    let pages: i64 = if total > 0 {
        (total - 1) / PAGE_SIZE + 1
    } else {
        0
    };
    proof {
        assert(pages == page_count(total as int));
        assert(message_views(messages@).len() == messages@.len());
    }
    let mut r = STYLE.to_owned();
    r.append("\n<h1>agent-salon &middot; messages</h1>\n");
    r.append(render_form(q, sources, targets, participants).as_str());
    r.append(render_summary(total, page, messages.len()).as_str());
    r.append(
        "<table>\n<thead><tr><th>ts</th><th>via</th><th>source &rarr; target</th><th>content</th><th>delivered</th></tr></thead><tbody>\n",
    );
    r.append(render_message_rows(messages).as_str());
    r.append("</tbody></table>\n");
    r.append(render_nav(q, page, pages).as_str());
    r
}

// ---------------------------------------------------------------------------
// One message
// ---------------------------------------------------------------------------

/// A row of the details.
pub open spec fn detail_row(k: Seq<char>, v: Seq<char>) -> Seq<char> {
    "<dt>"@ + escaped_text(k) + "</dt><dd>"@ + escaped_text(v) + "</dd>\n"@
}

fn row(k: &str, v: &str) -> (r: String)
    ensures
        r@ == detail_row(k@, v@),
{
    let mut r = "<dt>".to_owned();
    r.append(encode_text(k).as_str());
    r.append("</dt><dd>");
    r.append(encode_text(v).as_str());
    r.append("</dd>\n");
    r
}

/// The details of a message.
pub open spec fn detail_text(m: MessageView) -> Seq<char> {
    STYLE@ + "\n<p><a href=\"/admin\">&laquo; back</a></p><h1>message "@ + escaped_text(
        id_text(m.id),
    ) + "</h1>\n<dl>\n"@ + detail_row("ts"@, shown_time(m.ts)) + detail_row("via"@, m.via.name())
        + detail_row("source"@, m.source) + detail_row("target"@, shown(m.target, "(broadcast)"@))
        + detail_row("delivered_to"@, label_list(m.delivered_to, "(none)"@)) + detail_row(
        "delivery_errors"@,
        label_list(m.delivery_errors, "(none)"@),
    ) + detail_row("sender_addr"@, shown(m.sender_addr, "\u{2014}"@)) + detail_row(
        "sender_session_id"@,
        shown(m.sender_session_id, "\u{2014}"@),
    ) + "</dl>\n<h2>content</h2><pre class=\"content\">"@ + escaped_text(m.content)
        + "</pre>\n<h2>meta</h2><pre>"@ + escaped_text(pretty_json(m.meta)) + "</pre>\n"@
}

/// Renders the details of a message.
pub fn render_detail_page(m: &MessageRow) -> (r: String)
    requires
        m.ts.wf(),
    ensures
        r@ == detail_text(m@),
{
    let mut r = STYLE.to_owned();
    r.append("\n<p><a href=\"/admin\">&laquo; back</a></p><h1>message ");
    r.append(encode_text(id_string(m.id).as_str()).as_str());
    r.append("</h1>\n<dl>\n");
    r.append(row("ts", format_ts(m.ts).as_str()).as_str());
    r.append(row("via", m.via.as_str()).as_str());
    r.append(row("source", m.source.as_str()).as_str());
    r.append(row("target", str_or(&m.target, "(broadcast)")).as_str());
    r.append(row("delivered_to", list_labels(&m.delivered_to, "(none)").as_str()).as_str());
    r.append(row("delivery_errors", list_labels(&m.delivery_errors, "(none)").as_str()).as_str());
    r.append(row("sender_addr", str_or(&m.sender_addr, "\u{2014}")).as_str());
    r.append(row("sender_session_id", str_or(&m.sender_session_id, "\u{2014}")).as_str());
    r.append("</dl>\n<h2>content</h2><pre class=\"content\">");
    r.append(encode_text(m.content.as_str()).as_str());
    r.append("</pre>\n<h2>meta</h2><pre>");
    r.append(encode_text(pretty(&m.meta).as_str()).as_str());
    r.append("</pre>\n");
    r
}

// ---------------------------------------------------------------------------
// Replies
// ---------------------------------------------------------------------------

/// The page that tells of an error.
pub open spec fn error_reply(msg: Seq<char>) -> ReplyView {
    html_reply(500, STYLE@ + "\n<h1>error</h1><pre>"@ + escaped_text(msg) + "</pre>"@)
}

/// Renders the page that tells of an error.
pub fn render_error(msg: &str) -> (r: Reply)
    ensures
        r@ == error_reply(msg@),
{
    let mut body = STYLE.to_owned();
    body.append("\n<h1>error</h1><pre>");
    body.append(encode_text(msg).as_str());
    body.append("</pre>");
    Reply { status: 500, content_type: "text/html; charset=utf-8", body }
}

fn query_failed(e: &str) -> (r: Reply)
    ensures
        r@ == error_reply("query failed: "@ + e@),
{
    let mut msg = "query failed: ".to_owned();
    msg.append(e);
    render_error(msg.as_str())
}

/// What the list page needs to know from the database.
pub struct ListPlan {
    pub page: i64,
    pub messages: Statement,
    pub total: Statement,
    pub sources: Statement,
    pub targets: Statement,
    pub participants: Statement,
}

/// Whether a plan asks the database for what the page of a query shows.
pub open spec fn plans(plan: ListPlan, q: QueryView) -> bool {
    &&& plan.page == page_of(q)
    &&& plan.sources@ == distinct_statement("source"@)
    &&& plan.targets@ == distinct_statement("target"@)
    &&& plan.participants@ == participants_statement()
    &&& exists|f: ListFilters| #[trigger]
        are_filters_of(f, q) && plan.messages@ == list_statement(f) && plan.total@
            == count_statement(f)
}

/// Plans the list page of a query: what to ask the database. Nothing is asked
/// where the page lies so far on that its offset is no 64-bit number.
pub fn list_page(q: &ListQuery) -> (r: Option<ListPlan>)
    ensures
        r is Some <==> page_of(q@) * PAGE_SIZE <= i64::MAX,
        r matches Some(plan) ==> plan.page == page_of(q@) && plan.sources@ == distinct_statement(
            "source"@,
        ) && plan.targets@ == distinct_statement("target"@) && plan.participants@
            == participants_statement() && exists|f: ListFilters| #[trigger]
            are_filters_of(f, q@) && plan.messages@ == list_statement(f) && plan.total@
                == count_statement(f),
        r matches Some(plan) ==> plans(plan, q@),
{
    let page = page_number(q);
    if page > i64::MAX / PAGE_SIZE {
        return None;
    }
    let f = list_filters(q);
    let plan = ListPlan {
        page,
        messages: list_messages(&f),
        total: count_messages(&f),
        sources: distinct_labels("source"),
        targets: distinct_labels("target"),
        participants: distinct_participants(),
    };
    proof {
        assert(are_filters_of(f, q@) && plan.messages@ == list_statement(f) && plan.total@
            == count_statement(f));
    }
    Some(plan)
}

/// What the database gave back for a list page. Only the messages are needed:
/// where another question failed, the page shows a total of zero, or no labels
/// to choose from.
pub struct ListResults {
    pub messages: Result<Vec<MessageRow>, String>,
    pub total: Option<i64>,
    pub sources: Option<Vec<String>>,
    pub targets: Option<Vec<String>>,
    pub participants: Option<Vec<String>>,
}

/// The labels that were given back, or none.
pub open spec fn labels_or_none(o: Option<Vec<String>>) -> Seq<Seq<char>> {
    match o {
        Some(v) => views(v@),
        None => Seq::empty(),
    }
}

fn or_none(o: Option<Vec<String>>) -> (r: Vec<String>)
    ensures
        views(r@) == labels_or_none(o),
{
    match o {
        Some(v) => v,
        None => {
            let r: Vec<String> = Vec::new();
            proof {
                assert(views(r@) =~= Seq::empty());
            }
            r
        },
    }
}

/// The answer to a query for a page, from what the database gave back.
pub open spec fn list_answer(
    q: QueryView,
    page: int,
    messages: Result<Seq<MessageView>, Seq<char>>,
    total: Option<int>,
    sources: Seq<Seq<char>>,
    targets: Seq<Seq<char>>,
    participants: Seq<Seq<char>>,
) -> ReplyView {
    match messages {
        Err(e) => error_reply("query failed: "@ + e),
        Ok(ms) => html_reply(
            200,
            list_text(
                q,
                ms,
                match total {
                    Some(n) => n,
                    None => 0,
                },
                page,
                sources,
                targets,
                participants,
            ),
        ),
    }
}

/// Answers a query for a page with what the database gave back.
pub fn list_reply(q: &ListQuery, page: i64, results: ListResults) -> (r: Reply)
    requires
        results.messages matches Ok(ms) ==> (forall|i: int|
            0 <= i < ms@.len() ==> (#[trigger] ms@[i]).ts.wf()) && page * PAGE_SIZE + ms@.len()
            < i64::MAX,
        page >= 0,
    ensures
        r@ == match results.messages {
            Err(e) => error_reply("query failed: "@ + e@),
            Ok(ms) => html_reply(
                200,
                list_text(
                    q@,
                    message_views(ms@),
                    match results.total {
                        Some(n) => n as int,
                        None => 0,
                    },
                    page as int,
                    labels_or_none(results.sources),
                    labels_or_none(results.targets),
                    labels_or_none(results.participants),
                ),
            ),
        },
        r@ == list_answer(
            q@,
            page as int,
            match results.messages {
                Ok(ms) => Ok(message_views(ms@)),
                Err(e) => Err(e@),
            },
            match results.total {
                Some(n) => Some(n as int),
                None => None,
            },
            labels_or_none(results.sources),
            labels_or_none(results.targets),
            labels_or_none(results.participants),
        ),
{
    let messages = match results.messages {
        Ok(ms) => ms,
        Err(e) => {
            return query_failed(e.as_str());
        },
    };
    let total: i64 = match results.total {
        Some(n) => n,
        None => 0,
    };
    let body = render_list_page(
        q,
        &messages,
        total,
        page,
        &or_none(results.sources),
        &or_none(results.targets),
        &or_none(results.participants),
    );
    Reply { status: 200, content_type: "text/html; charset=utf-8", body }
}

/// The plan for the page of one message, or the answer to a path that holds no
/// identifier.
pub open spec fn detail_plan(id: Seq<char>) -> Result<StatementView, ReplyView> {
    match parsed_id(id) {
        Some(id) => Ok(get_statement(id)),
        None => Err(text_reply(400, "invalid id"@)),
    }
}

/// Plans the page of one message: how to find it, or what to answer where the
/// path holds no identifier.
pub fn detail_page(id: &str) -> (r: Result<Statement, Reply>)
    ensures
        match r {
            Ok(s) => parsed_id(id@) is Some && s@ == get_statement(parsed_id(id@)->Some_0),
            Err(reply) => parsed_id(id@) is None && reply@ == text_reply(400, "invalid id"@),
        },
        detail_plan(id@) == match r {
            Ok(s) => Ok::<StatementView, ReplyView>(s@),
            Err(reply) => Err::<StatementView, ReplyView>(reply@),
        },
{
    match parse_id(id) {
        Ok(id) => Ok(get_message(id)),
        Err(_) => Err(
            Reply {
                status: 400,
                content_type: "text/plain; charset=utf-8",
                body: "invalid id".to_owned(),
            },
        ),
    }
}

/// The answer to a query for one message, from what the database gave back.
pub open spec fn detail_answer(found: Result<Option<MessageView>, Seq<char>>) -> ReplyView {
    match found {
        Ok(Some(m)) => html_reply(200, detail_text(m)),
        Ok(None) => text_reply(404, "not found"@),
        Err(e) => error_reply("query failed: "@ + e),
    }
}

/// Answers a query for one message with what the database gave back.
pub fn detail_reply(found: Result<Option<MessageRow>, String>) -> (r: Reply)
    requires
        found matches Ok(Some(m)) ==> m.ts.wf(),
    ensures
        r@ == match found {
            Ok(Some(m)) => html_reply(200, detail_text(m@)),
            Ok(None) => text_reply(404, "not found"@),
            Err(e) => error_reply("query failed: "@ + e@),
        },
        r@ == detail_answer(
            match found {
                Ok(Some(m)) => Ok(Some(m@)),
                Ok(None) => Ok(None),
                Err(e) => Err(e@),
            },
        ),
{
    match found {
        Ok(Some(m)) => Reply {
            status: 200,
            content_type: "text/html; charset=utf-8",
            body: render_detail_page(&m),
        },
        Ok(None) => Reply {
            status: 404,
            content_type: "text/plain; charset=utf-8",
            body: "not found".to_owned(),
        },
        Err(e) => query_failed(e.as_str()),
    }
}

// ---------------------------------------------------------------------------
// Laws of the times
// ---------------------------------------------------------------------------

/// The number that two digits of a text write.
pub open spec fn number_at(s: Seq<char>, i: int) -> int {
    (s[i] as int - 48) * 10 + (s[i + 1] as int - 48)
}

proof fn lemma_digits(n: int)
    requires
        0 <= n < 100,
    ensures
        two_digits(n).len() == 2,
        number_at(two_digits(n), 0) == n,
        '0' <= two_digits(n)[0] <= '9',
        '0' <= two_digits(n)[1] <= '9',
{
    lemma_digit(n / 10);
    lemma_digit(n % 10);
}

proof fn lemma_digit(n: int)
    requires
        0 <= n < 10,
    ensures
        digit(n) as int == 48 + n,
{
}

/// A time is shown as the wall-clock time nine hours east of UTC: the year in
/// four digits, then the month, the day, the hour, the minute and the second in
/// two each, as in `2026-01-31 23:59:58`. A leap second is shown as the one after
/// the last.
pub proof fn law_shown_time_is_the_wall_clock(t: Timestamp, w: Wall)
    requires
        w.valid(),
        w.secs() == t.secs + 9 * 3_600,
    ensures
        shown_time(t).len() == 19,
        number_at(shown_time(t), 0) * 100 + number_at(shown_time(t), 2) == w.year,
        shown_time(t)[4] == '-',
        number_at(shown_time(t), 5) == w.month,
        shown_time(t)[7] == '-',
        number_at(shown_time(t), 8) == w.day,
        shown_time(t)[10] == ' ',
        number_at(shown_time(t), 11) == w.hour,
        shown_time(t)[13] == ':',
        number_at(shown_time(t), 14) == w.minute,
        shown_time(t)[16] == ':',
        number_at(shown_time(t), 17) == if t.nanos < 1_000_000_000 {
            w.second
        } else {
            w.second + 1
        },
        forall|i: int|
            0 <= i < 19 && i != 4 && i != 7 && i != 10 && i != 13 && i != 16 ==> '0'
                <= #[trigger] shown_time(t)[i] <= '9',
{
    lemma_seconds_of_dates(w);
    let v = wall_at(t);
    assert(v.valid() && v.secs() == t.secs + 32_400);
    law_calendar_runs_forward(v, w);
    let leap = t.nanos >= 1_000_000_000;
    let second = w.second + if leap {
        1int
    } else {
        0int
    };
    let s = shown_time(t);
    let y1 = two_digits(w.year / 100);
    let y2 = two_digits(w.year % 100);
    let mo = two_digits(w.month);
    let d = two_digits(w.day);
    let h = two_digits(w.hour);
    let mi = two_digits(w.minute);
    let se = two_digits(second);
    lemma_digits(w.year / 100);
    lemma_digits(w.year % 100);
    lemma_digits(w.month);
    lemma_digits(w.day);
    lemma_digits(w.hour);
    lemma_digits(w.minute);
    lemma_digits(second);
    assert(s == y1 + y2 + seq!['-'] + mo + seq!['-'] + d + seq![' '] + h + seq![':'] + mi
        + seq![':'] + se);
    assert(s =~= seq![
        y1[0],
        y1[1],
        y2[0],
        y2[1],
        '-',
        mo[0],
        mo[1],
        '-',
        d[0],
        d[1],
        ' ',
        h[0],
        h[1],
        ':',
        mi[0],
        mi[1],
        ':',
        se[0],
        se[1],
    ]);
}

/// Shown times sort as the times do, second by second: of two the earlier is
/// shown as the text that comes first, and one second as one text.
pub proof fn law_shown_times_sort_as_times(t: Timestamp, u: Timestamp)
    requires
        in_four_digit_years(t.secs + 9 * 3_600),
        in_four_digit_years(u.secs + 9 * 3_600),
        t.nanos < 1_000_000_000,
        u.nanos < 1_000_000_000,
    ensures
        text_less(shown_time(t), shown_time(u)) <==> t.secs < u.secs,
        shown_time(t) == shown_time(u) <==> t.secs == u.secs,
{
    let v = law_every_second_has_a_date(t.secs + 32_400);
    let w = law_every_second_has_a_date(u.secs + 32_400);
    law_shown_time_is_the_wall_clock(t, v);
    law_shown_time_is_the_wall_clock(u, w);
    law_calendar_runs_forward(v, w);
    law_calendar_runs_forward(w, v);
    let a = shown_time(t);
    let b = shown_time(u);
    assert(writes(a, v));
    assert(writes(b, w));
    if a == b {
        assert(v == w);
        lemma_not_before_itself(a);
    } else {
        let k = lemma_first_difference(a, b, 0);
        lemma_less_at(a, b, k);
        lemma_digits_decide(a, b, v, w, k);
    }
}

/// Whether a text of the length of a shown time writes a wall-clock time.
spec fn writes(s: Seq<char>, w: Wall) -> bool {
    &&& s.len() == 19
    &&& number_at(s, 0) * 100 + number_at(s, 2) == w.year
    &&& number_at(s, 5) == w.month
    &&& number_at(s, 8) == w.day
    &&& number_at(s, 11) == w.hour
    &&& number_at(s, 14) == w.minute
    &&& number_at(s, 17) == w.second
    &&& s[4] == '-' && s[7] == '-' && s[10] == ' ' && s[13] == ':' && s[16] == ':'
    &&& forall|i: int|
        0 <= i < 19 && i != 4 && i != 7 && i != 10 && i != 13 && i != 16 ==> '0' <= #[trigger] s[i]
            <= '9'
}

proof fn lemma_same_number(a: Seq<char>, b: Seq<char>, i: int)
    requires
        a[i] == b[i],
        a[i + 1] == b[i + 1],
    ensures
        number_at(a, i) == number_at(b, i),
{
}

proof fn lemma_number_order(a: Seq<char>, b: Seq<char>, i: int, k: int)
    requires
        k == i || k == i + 1 && a[i] == b[i],
        a[k] != b[k],
        '0' <= a[i] <= '9' && '0' <= b[i] <= '9',
        '0' <= a[i + 1] <= '9' && '0' <= b[i + 1] <= '9',
    ensures
        number_at(a, i) < number_at(b, i) <==> a[k] < b[k],
        number_at(a, i) != number_at(b, i),
{
}

proof fn lemma_digits_decide(a: Seq<char>, b: Seq<char>, v: Wall, w: Wall, k: int)
    requires
        writes(a, v),
        writes(b, w),
        0 <= k < 19,
        a[k] != b[k],
        forall|i: int| 0 <= i < k ==> a[i] == b[i],
    ensures
        a[k] < b[k] <==> earlier(v, w),
        v != w,
{
    if k >= 2 {
        lemma_same_number(a, b, 0);
    } else {
        lemma_number_order(a, b, 0, k);
        assert('0' <= a[2] <= '9' && '0' <= a[3] <= '9');
        assert('0' <= b[2] <= '9' && '0' <= b[3] <= '9');
    }
    if k >= 4 {
        lemma_same_number(a, b, 2);
        assert(v.year == w.year);
    } else if k >= 2 {
        lemma_number_order(a, b, 2, k);
    }
    if k >= 7 {
        lemma_same_number(a, b, 5);
        assert(v.month == w.month);
    } else if k >= 5 {
        lemma_number_order(a, b, 5, k);
    }
    if k >= 10 {
        lemma_same_number(a, b, 8);
        assert(v.day == w.day);
    } else if k >= 8 {
        lemma_number_order(a, b, 8, k);
    }
    if k >= 13 {
        lemma_same_number(a, b, 11);
        assert(v.hour == w.hour);
    } else if k >= 11 {
        lemma_number_order(a, b, 11, k);
    }
    if k >= 16 {
        lemma_same_number(a, b, 14);
        assert(v.minute == w.minute);
    } else if k >= 14 {
        lemma_number_order(a, b, 14, k);
    }
    if k >= 17 {
        lemma_number_order(a, b, 17, k);
    }
}

proof fn lemma_not_before_itself(a: Seq<char>)
    ensures
        !text_less(a, a),
    decreases a.len(),
{
    if a.len() > 0 {
        lemma_not_before_itself(a.skip(1));
    }
}

proof fn lemma_first_difference(a: Seq<char>, b: Seq<char>, n: int) -> (k: int)
    requires
        a.len() == b.len(),
        a != b,
        0 <= n <= a.len(),
        forall|i: int| 0 <= i < n ==> a[i] == b[i],
    ensures
        0 <= k < a.len(),
        a[k] != b[k],
        forall|i: int| 0 <= i < k ==> a[i] == b[i],
    decreases a.len() - n,
{
    if n == a.len() {
        assert(a =~= b);
        0
    } else if a[n] != b[n] {
        n
    } else {
        lemma_first_difference(a, b, n + 1)
    }
}

proof fn lemma_less_at(a: Seq<char>, b: Seq<char>, k: int)
    requires
        0 <= k < a.len(),
        a.len() == b.len(),
        a[k] != b[k],
        forall|i: int| 0 <= i < k ==> a[i] == b[i],
    ensures
        text_less(a, b) <==> a[k] < b[k],
    decreases a.len(),
{
    if k > 0 {
        assert(a[0] == b[0]);
        assert forall|i: int| 0 <= i < k - 1 implies a.skip(1)[i] == b.skip(1)[i] by {
            assert(a[i + 1] == b[i + 1]);
        }
        lemma_less_at(a.skip(1), b.skip(1), k - 1);
    }
}

/// Where the form holds a wall-clock time, as its datetime fields give it, the
/// bound is that time nine hours east of UTC: it is shown as the same digits. Where
/// it holds none, there is no bound.
pub proof fn law_form_times_are_wall_clock(f: ListFilters, q: QueryView, w: Wall)
    requires
        are_filters_of(f, q),
        w.valid(),
    ensures
        q.since is Some && w.second == 0 && trim(q.since->Some_0) == w.minute_text('-', '-', 'T', ':')
            ==> f.since is Some && f.since->Some_0.secs + 9 * 3_600 == w.secs()
            && f.since->Some_0.nanos == 0,
        q.since is Some && trim(q.since->Some_0) == w.second_text('-', '-', 'T', ':', ':', false)
            ==> f.since is Some && f.since->Some_0.secs + 9 * 3_600 == w.secs()
            && f.since->Some_0.nanos == 0,
        q.until is Some && w.second == 0 && trim(q.until->Some_0) == w.minute_text('-', '-', 'T', ':')
            ==> f.until is Some && f.until->Some_0.secs + 9 * 3_600 == w.secs()
            && f.until->Some_0.nanos == 0,
        q.until is Some && trim(q.until->Some_0) == w.second_text('-', '-', 'T', ':', ':', false)
            ==> f.until is Some && f.until->Some_0.secs + 9 * 3_600 == w.secs()
            && f.until->Some_0.nanos == 0,
        q.since is None || trim(q.since->Some_0).len() == 0 ==> f.since is None,
        q.until is None || trim(q.until->Some_0).len() == 0 ==> f.until is None,
        q.since is Some && naive_time(trim(q.since->Some_0), "%Y-%m-%dT%H:%M"@) is None
            && naive_time(trim(q.since->Some_0), "%Y-%m-%dT%H:%M:%S"@) is None ==> f.since is None,
        q.until is Some && naive_time(trim(q.until->Some_0), "%Y-%m-%dT%H:%M"@) is None
            && naive_time(trim(q.until->Some_0), "%Y-%m-%dT%H:%M:%S"@) is None ==> f.until is None,
{
}

/// A shown time, with a `T` between the date and the clock as the form has it, is
/// read back as the second that it was made from.
pub proof fn law_shown_time_is_read_back(f: ListFilters, q: QueryView, t: Timestamp)
    requires
        are_filters_of(f, q),
        in_four_digit_years(t.secs + 9 * 3_600),
        t.nanos < 1_000_000_000,
    ensures
        q.since is Some && trim(q.since->Some_0) == shown_time(t).update(10, 'T')
            ==> f.since is Some && f.since->Some_0.secs == t.secs && f.since->Some_0.nanos == 0,
        q.until is Some && trim(q.until->Some_0) == shown_time(t).update(10, 'T')
            ==> f.until is Some && f.until->Some_0.secs == t.secs && f.until->Some_0.nanos == 0,
{
    let w = law_every_second_has_a_date(t.secs + 32_400);
    assert(w.valid() && w.secs() == t.secs + 32_400);
    let v = wall_at(t);
    assert(v.valid() && v.secs() == t.secs + 32_400);
    let shown = v.second_text('-', '-', ' ', ':', ':', false);
    let typed = v.second_text('-', '-', 'T', ':', ':', false);
    assert(shown_time(t) == shown);
    assert(shown.update(10, 'T') =~= typed);
    law_form_times_are_wall_clock(f, q, v);
}

// ---------------------------------------------------------------------------
// Laws of the list
// ---------------------------------------------------------------------------

/// Whether one of the parts of a comma-separated list is a label.
pub open spec fn names_label(list: Seq<char>, l: Seq<char>) -> bool {
    exists|i: int| 0 <= i < split(list, ',').len() && trim(#[trigger] split(list, ',')[i]) == l
}

/// What the form holds decides what is listed and counted, field by field: a
/// message is selected if and only if it comes from the source and goes to the
/// target that are filled in, each participant that is filled in is its source or
/// its target, none of the labels to hide is, and it lies in the range of times.
pub proof fn law_form_decides_what_is_listed(f: ListFilters, q: QueryView, m: StoredView)
    requires
        are_filters_of(f, q),
    ensures
        f.selects(m) <==> {
            &&& q.source is Some && q.source->Some_0.len() > 0 ==> m.source == q.source->Some_0
            &&& q.target is Some && q.target->Some_0.len() > 0 ==> m.target == Some(
                q.target->Some_0,
            )
            &&& q.participant_a is Some && q.participant_a->Some_0.len() > 0 ==> m.source
                == q.participant_a->Some_0 || m.target == Some(q.participant_a->Some_0)
            &&& q.participant_b is Some && q.participant_b->Some_0.len() > 0 ==> m.source
                == q.participant_b->Some_0 || m.target == Some(q.participant_b->Some_0)
            &&& q.exclude is Some ==> forall|l: Seq<char>|
                l.len() > 0 && #[trigger] names_label(q.exclude->Some_0, l) ==> m.source != l
                    && m.target != Some(l)
            &&& f.since is Some ==> !text_less(m.ts, f.since->Some_0.rfc3339_text())
            &&& f.until is Some ==> !text_less(f.until->Some_0.rfc3339_text(), m.ts)
        },
{
    lemma_selects(f, m);
    assert forall|i: int| 0 <= i < f.exclude@.len() implies (#[trigger] f.exclude@[i])@
        == hidden_labels(q)[i] by {
        assert(views(f.exclude@)[i] == f.exclude@[i]@);
    }
    assert(views(f.exclude@).len() == f.exclude@.len());
    if q.exclude is Some {
        let list = q.exclude->Some_0;
        let parts = split(list, ',');
        assert forall|l: Seq<char>| l.len() > 0 implies (#[trigger] names_label(list, l)
            <==> hidden_labels(q).contains(l)) by {
            lemma_trimmed_parts_hold(parts, l);
        }
        if f.labels_pass(m.source, m.target) {
            assert forall|l: Seq<char>| l.len() > 0 && #[trigger] names_label(
                list,
                l,
            ) implies m.source != l && m.target != Some(l) by {
                assert(hidden_labels(q).contains(l));
                let i = choose|i: int| 0 <= i < hidden_labels(q).len() && hidden_labels(q)[i] == l;
                assert(f.exclude@[i]@ == l);
            }
        }
        assert forall|i: int| 0 <= i < f.exclude@.len() implies (#[trigger] f.exclude@[i])@.len()
            > 0 && names_label(list, f.exclude@[i]@) by {
            law_hosts_are_trimmed(parts, i);
            assert(hidden_labels(q).contains(hidden_labels(q)[i]));
        }
    } else {
        assert(f.exclude@.len() == 0);
    }
}

proof fn lemma_trimmed_parts_hold(parts: Seq<Seq<char>>, l: Seq<char>)
    requires
        l.len() > 0,
    ensures
        trimmed_parts(parts).contains(l) <==> exists|i: int|
            0 <= i < parts.len() && trim(#[trigger] parts[i]) == l,
    decreases parts.len(),
{
    if parts.len() > 0 {
        let head = trimmed_parts(parts.drop_last());
        lemma_trimmed_parts_hold(parts.drop_last(), l);
        let all = trimmed_parts(parts);
        if all.contains(l) {
            let k = choose|k: int| 0 <= k < all.len() && all[k] == l;
            if k < head.len() {
                assert(head[k] == l);
                assert(head.contains(l));
                let i = choose|i: int|
                    0 <= i < parts.drop_last().len() && trim(#[trigger] parts.drop_last()[i]) == l;
                assert(trim(parts[i]) == l);
            } else {
                assert(trim(parts[parts.len() - 1]) == l);
            }
        }
        if exists|i: int| 0 <= i < parts.len() && trim(#[trigger] parts[i]) == l {
            let i = choose|i: int| 0 <= i < parts.len() && trim(#[trigger] parts[i]) == l;
            if i < parts.len() - 1 {
                assert(trim(parts.drop_last()[i]) == l);
                assert(head.contains(l));
                let k = choose|k: int| 0 <= k < head.len() && head[k] == l;
                assert(all[k] == l);
            } else {
                assert(all[head.len() as int] == l);
            }
        }
    }
}

/// A page of the list holds fifty messages, and follows the pages before it.
pub proof fn law_pages_are_windows(f: ListFilters, q: QueryView)
    requires
        are_filters_of(f, q),
    ensures
        f.limit == 50,
        q.page is None ==> f.offset == 0,
        q.page is Some && q.page->Some_0 <= 0 ==> f.offset == 0,
        q.page is Some && q.page->Some_0 > 0 ==> f.offset == 50 * q.page->Some_0,
{
}

// ---------------------------------------------------------------------------
// Laws of the links
// ---------------------------------------------------------------------------

/// The number that a hexadecimal digit in upper case stands for.
pub open spec fn hex_value(c: char) -> int {
    if c <= '9' {
        c as int - 48
    } else {
        c as int - 55
    }
}

/// The bytes that percent-encoded text stands for.
pub open spec fn percent_decoded(s: Seq<char>) -> Seq<u8>
    decreases s.len(),
{
    if s.len() == 0 {
        Seq::empty()
    } else if s[0] == '%' && s.len() >= 3 {
        seq![(16 * hex_value(s[1]) + hex_value(s[2])) as u8] + percent_decoded(s.skip(3))
    } else {
        seq![s[0] as u8] + percent_decoded(s.skip(1))
    }
}

proof fn lemma_bytes_decode(bytes: Seq<u8>)
    ensures
        percent_decoded(expand(bytes, |b: u8| url_code(b))) == bytes,
    decreases bytes.len(),
{
    let code = |b: u8| url_code(b);
    let text = expand(bytes, code);
    if bytes.len() > 0 {
        let b = bytes[0];
        let rest = expand(bytes.skip(1), code);
        lemma_bytes_decode(bytes.skip(1));
        assert(text == url_code(b) + rest);
        if unreserved(b) {
            assert(text[0] == b as char);
            assert(text.skip(1) =~= rest);
            assert(text[0] as u8 == b);
        } else {
            let h = b as int / 16;
            let l = b as int % 16;
            assert(text[0] == '%');
            assert(text[1] == upper_hex(h));
            assert(text[2] == upper_hex(l));
            assert(hex_value(upper_hex(h)) == h);
            assert(hex_value(upper_hex(l)) == l);
            assert(text.skip(3) =~= rest);
        }
        assert(seq![b] + bytes.skip(1) =~= bytes);
    }
}

/// Decoding gives back the UTF-8 of a text that was percent-encoded.
pub proof fn law_encoding_is_undone(s: Seq<char>)
    ensures
        percent_decoded(url_encoded(s)) == encode_utf8(s),
{
    lemma_bytes_decode(encode_utf8(s));
}

spec fn all_lack(parts: Seq<Seq<char>>, c: char) -> bool {
    forall|i: int| 0 <= i < parts.len() ==> lacks(#[trigger] parts[i], c)
}

proof fn lemma_pair_lacks(key: Seq<char>, value: Option<Seq<char>>)
    requires
        lacks(key, '&'),
    ensures
        all_lack(pair_if(key, value), '&'),
{
    if let Some(v) = filled(value) {
        lemma_encoded_lacks(key, v);
    }
}

proof fn lemma_encoded_lacks(key: Seq<char>, v: Seq<char>)
    requires
        lacks(key, '&'),
    ensures
        lacks(key + "="@ + url_encoded(v), '&'),
{
    reveal_strlit("=");
    law_encoded_text_stays_inside(v);
    let e = url_encoded(v);
    let pair = key + "="@ + e;
    assert forall|i: int| 0 <= i < pair.len() implies #[trigger] pair[i] != '&' by {
        if i < key.len() {
            assert(pair[i] == key[i]);
        } else if i > key.len() {
            assert(pair[i] == e[i - key.len() - 1]);
        }
    }
}

proof fn lemma_sums_of_parts()
    ensures
        forall|a: Seq<Seq<char>>, b: Seq<Seq<char>>|
            all_lack(a, '&') && all_lack(b, '&') ==> #[trigger] all_lack(a + b, '&'),
        forall|a: Seq<Seq<char>>, b: Seq<Seq<char>>, x: Seq<char>|
            a.contains(x) || b.contains(x) ==> #[trigger] (a + b).contains(x),
{
    assert forall|a: Seq<Seq<char>>, b: Seq<Seq<char>>, x: Seq<char>|
        a.contains(x) || b.contains(x) implies #[trigger] (a + b).contains(x) by {
        if a.contains(x) {
            let i = choose|i: int| 0 <= i < a.len() && a[i] == x;
            assert((a + b)[i] == x);
        } else {
            let i = choose|i: int| 0 <= i < b.len() && b[i] == x;
            assert((a + b)[a.len() + i] == x);
        }
    }
}

proof fn lemma_url_pairs_lack(q: QueryView, page: int)
    ensures
        all_lack(url_pairs(q, page), '&'),
{
    reveal_strlit("source");
    reveal_strlit("target");
    reveal_strlit("participant_a");
    reveal_strlit("participant_b");
    reveal_strlit("exclude");
    reveal_strlit("since");
    reveal_strlit("until");
    reveal_strlit("page");
    lemma_pair_lacks("source"@, q.source);
    lemma_pair_lacks("target"@, q.target);
    lemma_pair_lacks("participant_a"@, q.participant_a);
    lemma_pair_lacks("participant_b"@, q.participant_b);
    lemma_pair_lacks("exclude"@, q.exclude);
    lemma_pair_lacks("since"@, q.since);
    lemma_pair_lacks("until"@, q.until);
    lemma_encoded_lacks("page"@, decimal_int(page));
    lemma_sums_of_parts();
}

/// One for a field that is filled in.
pub open spec fn one_if_filled(o: Option<Seq<char>>) -> int {
    if o is Some && o->Some_0.len() > 0 {
        1
    } else {
        0
    }
}

/// A link to a page carries what the form holds: its query has a pair for each
/// field that is filled in, percent-encoded under the name of the field, one for
/// the page, and no other.
pub proof fn law_link_carries_the_form(q: QueryView, page: int)
    ensures
        ({
            let url = page_url(q, page);
            let pairs = split(url.skip(7), '&');
            &&& url.take(7) == "/admin?"@
            &&& q.source is Some && q.source->Some_0.len() > 0 ==> pairs.contains(
                "source"@ + "="@ + url_encoded(q.source->Some_0),
            )
            &&& q.target is Some && q.target->Some_0.len() > 0 ==> pairs.contains(
                "target"@ + "="@ + url_encoded(q.target->Some_0),
            )
            &&& q.participant_a is Some && q.participant_a->Some_0.len() > 0 ==> pairs.contains(
                "participant_a"@ + "="@ + url_encoded(q.participant_a->Some_0),
            )
            &&& q.participant_b is Some && q.participant_b->Some_0.len() > 0 ==> pairs.contains(
                "participant_b"@ + "="@ + url_encoded(q.participant_b->Some_0),
            )
            &&& q.exclude is Some && q.exclude->Some_0.len() > 0 ==> pairs.contains(
                "exclude"@ + "="@ + url_encoded(q.exclude->Some_0),
            )
            &&& q.since is Some && q.since->Some_0.len() > 0 ==> pairs.contains(
                "since"@ + "="@ + url_encoded(q.since->Some_0),
            )
            &&& q.until is Some && q.until->Some_0.len() > 0 ==> pairs.contains(
                "until"@ + "="@ + url_encoded(q.until->Some_0),
            )
            &&& pairs.contains("page"@ + "="@ + url_encoded(decimal_int(page)))
            &&& pairs.len() == 1 + one_if_filled(q.source) + one_if_filled(q.target)
                + one_if_filled(q.participant_a) + one_if_filled(q.participant_b) + one_if_filled(
                q.exclude,
            ) + one_if_filled(q.since) + one_if_filled(q.until)
        }),
{
    reveal_strlit("/admin?");
    reveal_strlit("&");
    let parts = url_pairs(q, page);
    let query = join(parts, "&"@);
    assert("/admin?"@.len() == 7);
    assert(page_url(q, page).skip(7) =~= query);
    assert(page_url(q, page).take(7) =~= "/admin?"@);
    assert("&"@ =~= seq!['&']);
    lemma_url_pairs_lack(q, page);
    law_joined_parts_are_split_again(parts, '&');
    lemma_sums_of_parts();
    lemma_pair_held("source"@, q.source);
    lemma_pair_held("target"@, q.target);
    lemma_pair_held("participant_a"@, q.participant_a);
    lemma_pair_held("participant_b"@, q.participant_b);
    lemma_pair_held("exclude"@, q.exclude);
    lemma_pair_held("since"@, q.since);
    lemma_pair_held("until"@, q.until);
    let last = "page"@ + "="@ + url_encoded(decimal_int(page));
    assert(seq![last][0] == last);
    assert(seq![last].contains(last));
}

proof fn lemma_pair_held(key: Seq<char>, value: Option<Seq<char>>)
    ensures
        value is Some && value->Some_0.len() > 0 ==> pair_if(key, value).contains(
            key + "="@ + url_encoded(value->Some_0),
        ),
        pair_if(key, value).len() == one_if_filled(value),
{
    if let Some(v) = filled(value) {
        assert(pair_if(key, value)[0] == key + "="@ + url_encoded(v));
    }
}

// ---------------------------------------------------------------------------
// Laws of the pages
// ---------------------------------------------------------------------------

/// There are as many pages as the messages fill, and no more.
pub proof fn law_pages_are_as_many_as_needed(total: int)
    ensures
        total > 0 ==> (page_count(total) - 1) * 50 < total <= page_count(total) * 50,
        total <= 0 ==> page_count(total) == 0,
{
}

/// A text that is short enough is shown whole; of a longer one the beginning,
/// with a mark that there is more.
pub proof fn law_long_texts_are_cut(s: Seq<char>, max: nat)
    ensures
        s.len() <= max ==> truncated(s, max) == s,
        s.len() > max ==> truncated(s, max).len() == max + 1 && truncated(s, max).take(max as int)
            == s.take(max as int) && truncated(s, max)[max as int] == '\u{2026}',
{
    if s.len() > max {
        assert(truncated(s, max).take(max as int) =~= s.take(max as int));
    }
}

proof fn lemma_detail_row(k: Seq<char>, v: Seq<char>)
    requires
        forall|i: int| 0 <= i < k.len() ==> #[trigger] k[i] != '&' && k[i] != '<' && k[i] != '>',
    ensures
        detail_row(k, v) == "<dt>"@ + k + "</dt><dd>"@ + escaped_text(v) + "</dd>\n"@,
{
    lemma_plain_text(k);
}

/// The page of one message shows all of it: each field beside its name, the
/// content and the meta whole.
#[verifier::spinoff_prover]
#[verifier::rlimit(60)]
pub proof fn law_detail_shows_the_message(m: MessageView)
    ensures
        shows(
            detail_text(m),
            "\n<p><a href=\"/admin\">&laquo; back</a></p><h1>message "@ + escaped_text(
                id_text(m.id),
            ),
        ),
        shows(
            detail_text(m),
            "<dt>"@ + "ts"@ + "</dt><dd>"@ + escaped_text(shown_time(m.ts)) + "</dd>\n"@,
        ),
        m.via == Via::Notify ==> shows(
            detail_text(m),
            "<dt>"@ + "via"@ + "</dt><dd>"@ + escaped_text("notify"@) + "</dd>\n"@,
        ),
        m.via == Via::Tool ==> shows(
            detail_text(m),
            "<dt>"@ + "via"@ + "</dt><dd>"@ + escaped_text("tool"@) + "</dd>\n"@,
        ),
        shows(
            detail_text(m),
            "<dt>"@ + "source"@ + "</dt><dd>"@ + escaped_text(m.source) + "</dd>\n"@,
        ),
        m.target is Some ==> shows(
            detail_text(m),
            "<dt>"@ + "target"@ + "</dt><dd>"@ + escaped_text(m.target->Some_0) + "</dd>\n"@,
        ),
        m.target is None ==> shows(
            detail_text(m),
            "<dt>"@ + "target"@ + "</dt><dd>"@ + escaped_text("(broadcast)"@) + "</dd>\n"@,
        ),
        m.delivered_to.len() > 0 ==> shows(
            detail_text(m),
            "<dt>"@ + "delivered_to"@ + "</dt><dd>"@ + escaped_text(join(m.delivered_to, ", "@))
                + "</dd>\n"@,
        ),
        m.delivered_to.len() == 0 ==> shows(
            detail_text(m),
            "<dt>"@ + "delivered_to"@ + "</dt><dd>"@ + escaped_text("(none)"@) + "</dd>\n"@,
        ),
        m.delivery_errors.len() > 0 ==> shows(
            detail_text(m),
            "<dt>"@ + "delivery_errors"@ + "</dt><dd>"@ + escaped_text(
                join(m.delivery_errors, ", "@),
            ) + "</dd>\n"@,
        ),
        m.delivery_errors.len() == 0 ==> shows(
            detail_text(m),
            "<dt>"@ + "delivery_errors"@ + "</dt><dd>"@ + escaped_text("(none)"@) + "</dd>\n"@,
        ),
        m.sender_addr is Some ==> shows(
            detail_text(m),
            "<dt>"@ + "sender_addr"@ + "</dt><dd>"@ + escaped_text(m.sender_addr->Some_0)
                + "</dd>\n"@,
        ),
        m.sender_addr is None ==> shows(
            detail_text(m),
            "<dt>"@ + "sender_addr"@ + "</dt><dd>"@ + escaped_text("\u{2014}"@) + "</dd>\n"@,
        ),
        m.sender_session_id is None ==> shows(
            detail_text(m),
            "<dt>"@ + "sender_session_id"@ + "</dt><dd>"@ + escaped_text("\u{2014}"@)
                + "</dd>\n"@,
        ),
        m.sender_session_id is Some ==> shows(
            detail_text(m),
            "<dt>"@ + "sender_session_id"@ + "</dt><dd>"@ + escaped_text(
                m.sender_session_id->Some_0,
            ) + "</dd>\n"@,
        ),
        shows(
            detail_text(m),
            "</dl>\n<h2>content</h2><pre class=\"content\">"@ + escaped_text(m.content),
        ),
        shows(
            detail_text(m),
            "</pre>\n<h2>meta</h2><pre>"@ + escaped_text(pretty_json(m.meta)),
        ),
{
    lemma_shows();
    reveal_strlit("ts");
    reveal_strlit("via");
    reveal_strlit("source");
    reveal_strlit("target");
    reveal_strlit("delivered_to");
    reveal_strlit("delivery_errors");
    reveal_strlit("sender_addr");
    reveal_strlit("sender_session_id");
    lemma_detail_row("ts"@, shown_time(m.ts));
    lemma_detail_row("via"@, m.via.name());
    lemma_detail_row("source"@, m.source);
    lemma_detail_row("target"@, shown(m.target, "(broadcast)"@));
    lemma_detail_row("delivered_to"@, label_list(m.delivered_to, "(none)"@));
    lemma_detail_row("delivery_errors"@, label_list(m.delivery_errors, "(none)"@));
    lemma_detail_row("sender_addr"@, shown(m.sender_addr, "\u{2014}"@));
    lemma_detail_row("sender_session_id"@, shown(m.sender_session_id, "\u{2014}"@));
}

/// The row of a message shows what it holds, and links to its page: when it was
/// sent, how it came in, from whom, to whom, its first 120 characters, and whom it
/// reached.
#[verifier::spinoff_prover]
#[verifier::rlimit(60)]
pub proof fn law_row_shows_the_message(m: MessageView)
    ensures
        shows(
            message_row(m),
            "<tr><td class=\"ts\"><a href=\"/admin/messages/"@ + escaped_attribute(id_text(m.id)),
        ),
        shows(message_row(m), "\">"@ + escaped_text(shown_time(m.ts))),
        m.via == Via::Notify ==> shows(
            message_row(m),
            "</a></td><td>"@ + escaped_text("notify"@),
        ),
        m.via == Via::Tool ==> shows(message_row(m), "</a></td><td>"@ + escaped_text("tool"@)),
        shows(message_row(m), "</td><td>"@ + escaped_text(m.source)),
        m.target is Some ==> shows(
            message_row(m),
            " &rarr; "@ + escaped_text(m.target->Some_0),
        ),
        m.target is None ==> shows(message_row(m), " &rarr; "@ + escaped_text("(broadcast)"@)),
        m.content.len() <= 120 ==> shows(
            message_row(m),
            "</td><td class=\"content\">"@ + escaped_text(m.content),
        ),
        m.content.len() > 120 ==> shows(
            message_row(m),
            "</td><td class=\"content\">"@ + escaped_text(
                m.content.take(120).push('\u{2026}'),
            ),
        ),
        m.delivered_to.len() > 0 ==> shows(
            message_row(m),
            "</td><td>"@ + escaped_text(join(m.delivered_to, ", "@)),
        ),
        m.delivered_to.len() == 0 ==> shows(
            message_row(m),
            "</td><td>"@ + escaped_text("\u{2014}"@),
        ),
{
    lemma_shows();
}

/// The list has a row for each message, in order.
pub proof fn law_each_message_has_its_row(ms: Seq<MessageView>, m: MessageView)
    ensures
        message_rows(Seq::empty()) == Seq::<char>::empty(),
        message_rows(ms.push(m)) == message_rows(ms) + message_row(m),
{
    assert(ms.push(m).drop_last() =~= ms);
}

/// A choice offers each label, the one that is chosen marked, in order.
pub proof fn law_each_label_is_offered(
    options: Seq<Seq<char>>,
    option: Seq<char>,
    current: Option<Seq<char>>,
    name: Seq<char>,
)
    ensures
        options_text(Seq::empty(), current) == Seq::<char>::empty(),
        current == Some(option) ==> options_text(options.push(option), current) == options_text(
            options,
            current,
        ) + ("<option value=\""@ + escaped_attribute(option) + "\""@ + " selected"@ + ">"@
            + escaped_text(option) + "</option>\n"@),
        current != Some(option) ==> options_text(options.push(option), current) == options_text(
            options,
            current,
        ) + ("<option value=\""@ + escaped_attribute(option) + "\""@ + ">"@ + escaped_text(option)
            + "</option>\n"@),
        shows(
            select_text(name, current, options),
            "\">\n<option value=\"\">(any)</option>\n"@ + options_text(options, current),
        ),
        shows(select_text(name, current, options), "\n<select name=\""@ + name),
{
    lemma_shows();
    reveal_strlit("");
    assert(options.push(option).drop_last() =~= options);
    let open = "<option value=\""@ + escaped_attribute(option) + "\""@;
    assert(open + ""@ =~= open);
}

/// The list page shows the form as it was filled in, with the labels to choose
/// from, how many messages there are and which of them stand on the page, a row
/// for each, and the links to the pages around it.
#[verifier::spinoff_prover]
#[verifier::rlimit(60)]
pub proof fn law_list_page_shows_its_parts(
    q: QueryView,
    messages: Seq<MessageView>,
    total: int,
    page: int,
    sources: Seq<Seq<char>>,
    targets: Seq<Seq<char>>,
    participants: Seq<Seq<char>>,
)
    ensures
        ({
            let text = list_text(q, messages, total, page, sources, targets, participants);
            &&& shows(text, select_text("participant_a"@, q.participant_a, participants))
            &&& shows(text, select_text("participant_b"@, q.participant_b, participants))
            &&& shows(text, select_text("source"@, q.source, sources))
            &&& shows(text, select_text("target"@, q.target, targets))
            &&& q.exclude is Some ==> shows(
                text,
                "<label>exclude<input type=\"text\" name=\"exclude\" value=\""@
                    + escaped_attribute(q.exclude->Some_0),
            )
            &&& q.exclude is None ==> shows(
                text,
                "<label>exclude<input type=\"text\" name=\"exclude\" value=\""@
                    + escaped_attribute(""@),
            )
            &&& q.since is Some ==> shows(
                text,
                "<label>since<input type=\"datetime-local\" name=\"since\" value=\""@
                    + escaped_attribute(q.since->Some_0),
            )
            &&& q.until is Some ==> shows(
                text,
                "<label>until<input type=\"datetime-local\" name=\"until\" value=\""@
                    + escaped_attribute(q.until->Some_0),
            )
            &&& shows(
                text,
                "<p class=\"meta\">"@ + decimal_int(total) + " total &middot; showing "@
                    + decimal_int(50 * page + 1) + "-"@ + decimal_int(50 * page + messages.len())
                    + "</p>\n"@,
            )
            &&& shows(text, message_rows(messages))
            &&& shows(text, nav_text(q, page, page_count(total)))
        }),
{
    lemma_shows();
    let form = form_text(q, sources, targets, participants);
    let text = list_text(q, messages, total, page, sources, targets, participants);
    assert(page * PAGE_SIZE == 50 * page);
    assert(shows(form, select_text("participant_a"@, q.participant_a, participants)));
    assert(shows(form, select_text("participant_b"@, q.participant_b, participants)));
    assert(shows(form, select_text("source"@, q.source, sources)));
    assert(shows(form, select_text("target"@, q.target, targets)));
}

/// Where there is more than one page, each says which it is, counted from one, and
/// of how many.
pub proof fn law_pages_are_numbered(q: QueryView, page: int, pages: int)
    requires
        pages > 1,
    ensures
        shows(nav_text(q, page, pages), "<span>page "@ + decimal_int(page + 1)),
        shows(nav_text(q, page, pages), " / "@ + decimal_int(pages)),
{
    lemma_shows();
}

/// Where there is more than one page, each but the first links to the one before
/// it, and each but the last to the one after; a single page links to none.
#[verifier::spinoff_prover]
pub proof fn law_pages_are_linked(q: QueryView, page: int, pages: int)
    requires
        page >= 0,
    ensures
        pages <= 1 ==> nav_text(q, page, pages).len() == 0,
        pages > 1 && page == 0 ==> ("<nav class=\"pagination\">\n"@ + "<span>page "@).is_prefix_of(
            nav_text(q, page, pages),
        ),
        pages > 1 && page > 0 ==> ("<nav class=\"pagination\">\n"@ + ("<a href=\""@
            + escaped_attribute(page_url(q, page - 1)) + "\">"@ + "&laquo; prev"@
            + "</a>\n"@)).is_prefix_of(nav_text(q, page, pages)),
        pages > 1 && page + 1 >= pages ==> ("</span>\n"@ + "</nav>\n"@).is_suffix_of(
            nav_text(q, page, pages),
        ),
        pages > 1 && page + 1 < pages ==> (("<a href=\""@ + escaped_attribute(
            page_url(q, page + 1),
        ) + "\">"@ + "next &raquo;"@ + "</a>\n"@) + "</nav>\n"@).is_suffix_of(
            nav_text(q, page, pages),
        ),
{
    if pages > 1 {
        let open = "<nav class=\"pagination\">\n"@;
        let prev = if page > 0 {
            page_link(q, page - 1, "&laquo; prev"@)
        } else {
            Seq::empty()
        };
        let next = if page + 1 < pages {
            page_link(q, page + 1, "next &raquo;"@)
        } else {
            Seq::empty()
        };
        let a = "<span>page "@;
        let b = decimal_int(page + 1);
        let c = " / "@;
        let d = decimal_int(pages);
        let e = "</span>\n"@;
        let close = "</nav>\n"@;
        let text = nav_text(q, page, pages);
        assert(text == open + prev + a + b + c + d + e + next + close);
        let middle = b + c + d + e + next + close;
        assert(text =~= (open + prev + a) + middle);
        assert(text =~= (open + prev) + (a + middle));
        let front = open + prev + a + b + c + d;
        assert(text =~= front + (e + next + close));
        assert(text =~= (front + e) + (next + close));
        if page == 0 {
            assert(open + prev + a =~= open + a);
        }
        if page + 1 >= pages {
            assert(e + next + close =~= e + close);
        }
    }
}

/// An error is told on a page of its own.
pub proof fn law_errors_are_told(msg: Seq<char>)
    ensures
        error_reply(msg).status == 500,
        error_reply(msg).content_type == "text/html; charset=utf-8"@,
        shows(error_reply(msg).body, "\n<h1>error</h1><pre>"@ + escaped_text(msg)),
{
    lemma_shows();
}

/// The labels to choose from are those that the database gave back, or none where
/// it gave none.
pub proof fn law_labels_are_those_given(labels: Vec<String>)
    ensures
        labels_or_none(Some(labels)).len() == labels@.len(),
        forall|i: int|
            0 <= i < labels@.len() ==> labels_or_none(Some(labels))[i] == (#[trigger] labels@[i])@,
        labels_or_none(None).len() == 0,
{
}

/// A conversation that the form asks for is asked for with both of its
/// participants: a message that the list or the count selects has each of them as
/// its source or its target.
pub proof fn law_conversation_is_asked_for(
    f: ListFilters,
    q: QueryView,
    a: Seq<char>,
    b: Seq<char>,
    m: StoredView,
)
    requires
        are_filters_of(f, q),
        q.participant_a == Some(a),
        q.participant_b == Some(b),
        a.len() > 0,
        b.len() > 0,
    ensures
        f.selects(m) ==> (m.source == a || m.target == Some(a)) && (m.source == b || m.target
            == Some(b)),
        shows(
            list_statement(f).sql,
            " AND (source = ? OR target = ?)"@ + " AND (source = ? OR target = ?)"@,
        ),
        shows(
            count_statement(f).sql,
            " AND (source = ? OR target = ?)"@ + " AND (source = ? OR target = ?)"@,
        ),
        list_statement(f).binds.contains(BindView::Text(a)),
        list_statement(f).binds.contains(BindView::Text(b)),
        count_statement(f).binds.contains(BindView::Text(a)),
        count_statement(f).binds.contains(BindView::Text(b)),
{
    law_form_decides_what_is_listed(f, q, m);
    law_both_participants_are_asked_for(f, a, b);
}

/// A query for a page is answered with the list of what was found, or with the
/// error; where the total could not be had, it is given as zero.
pub proof fn law_lists_are_answered(
    q: QueryView,
    page: int,
    messages: Seq<MessageView>,
    total: Option<int>,
    sources: Seq<Seq<char>>,
    targets: Seq<Seq<char>>,
    participants: Seq<Seq<char>>,
    e: Seq<char>,
)
    ensures
        ({
            let r = list_answer(q, page, Ok(messages), total, sources, targets, participants);
            &&& r.status == 200
            &&& r.content_type == "text/html; charset=utf-8"@
            &&& total is Some ==> r.body == list_text(
                q,
                messages,
                total->Some_0,
                page,
                sources,
                targets,
                participants,
            )
            &&& total is None ==> r.body == list_text(
                q,
                messages,
                0,
                page,
                sources,
                targets,
                participants,
            )
        }),
        list_answer(q, page, Err(e), total, sources, targets, participants).status == 500,
        shows(
            list_answer(q, page, Err(e), total, sources, targets, participants).body,
            "\n<h1>error</h1><pre>"@ + escaped_text("query failed: "@ + e),
        ),
{
    law_errors_are_told("query failed: "@ + e);
}

/// A query for one message is answered with the message where it was found, with
/// 404 where it was not, with 400 where the path holds no identifier, and with the
/// error where the search failed.
pub proof fn law_messages_are_answered(path: Seq<char>, m: MessageView, e: Seq<char>)
    ensures
        detail_answer(Ok(Some(m))).status == 200,
        detail_answer(Ok(Some(m))).content_type == "text/html; charset=utf-8"@,
        detail_answer(Ok(Some(m))).body == detail_text(m),
        detail_answer(Ok(None)).status == 404,
        detail_answer(Err(e)).status == 500,
        shows(
            detail_answer(Err(e)).body,
            "\n<h1>error</h1><pre>"@ + escaped_text("query failed: "@ + e),
        ),
        parsed_id(path) is Some ==> detail_plan(path) is Ok && detail_plan(path)->Ok_0.binds
            == seq![BindView::Text(id_text(parsed_id(path)->Some_0))],
        parsed_id(path) is None ==> detail_plan(path) is Err && detail_plan(path)->Err_0.status
            == 400,
{
    law_errors_are_told("query failed: "@ + e);
}

/// The plan of a page asks for its fifty messages, for the count under the same
/// conditions, for the labels of both columns; and, of a conversation, for both of
/// its participants, in the list and in the count.
#[verifier::spinoff_prover]
#[verifier::rlimit(40)]
pub proof fn law_plan_asks_for_the_page(
    plan: ListPlan,
    q: QueryView,
    a: Seq<char>,
    b: Seq<char>,
)
    requires
        plans(plan, q),
    ensures
        q.page is Some && q.page->Some_0 > 0 ==> plan.page == q.page->Some_0,
        q.page is None || q.page->Some_0 <= 0 ==> plan.page == 0,
        plan.messages@.binds == plan.total@.binds + seq![
            BindView::Int(50),
            BindView::Int(50 * plan.page),
        ],
        plan.sources@.sql
            == "SELECT DISTINCT source FROM messages WHERE source IS NOT NULL ORDER BY source"@,
        plan.targets@.sql
            == "SELECT DISTINCT target FROM messages WHERE target IS NOT NULL ORDER BY target"@,
        shows(plan.participants@.sql, "SELECT source AS label FROM messages"@),
        shows(
            plan.participants@.sql,
            "SELECT target AS label FROM messages WHERE target IS NOT NULL"@,
        ),
        q.participant_a == Some(a) && q.participant_b == Some(b) && a.len() > 0 && b.len() > 0 ==> {
            &&& shows(
                plan.messages@.sql,
                " AND (source = ? OR target = ?)"@ + " AND (source = ? OR target = ?)"@,
            )
            &&& shows(
                plan.total@.sql,
                " AND (source = ? OR target = ?)"@ + " AND (source = ? OR target = ?)"@,
            )
            &&& plan.total@.binds.contains(BindView::Text(a))
            &&& plan.total@.binds.contains(BindView::Text(b))
        },
{
    lemma_shows();
    law_labels_are_asked_for();
    let f = choose|f: ListFilters| #[trigger]
        are_filters_of(f, q) && plan.messages@ == list_statement(f) && plan.total@
            == count_statement(f);
    assert(f.offset == 50 * plan.page);
    if q.participant_a == Some(a) && q.participant_b == Some(b) && a.len() > 0 && b.len() > 0 {
        law_both_participants_are_asked_for(f, a, b);
    }
}

} // verus!
