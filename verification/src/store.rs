//! What the statements are meant to do to the table of messages, and what
//! follows for those who store and list.
//!
//! The table is a list of rows with different identifiers. How the database
//! carries out a statement is its own affair; here stands what is asked of it:
//! an insertion adds a row unless its identifier is taken, a look-up finds the
//! row of an identifier, a listing gives the selected rows with the newest
//! first, a window of them at a time, a count says how many are selected, and a
//! list of labels gives each that occurs once, in ascending order.
use crate::db::{
    count_statement, get_statement, insert_statement, is_label_column, is_writable, law_conversation,
    law_conversation_complete, list_statement, opt_bind, schema, sorts_by_time, where_sql, BindView,
    ListFilters, MessageView, StoredView,
};
use crate::ids::{id_text, law_id_texts_differ};
use crate::json::text_less;
use crate::text::{join, opt_view};
use vstd::prelude::*;

verus! {

// ---------------------------------------------------------------------------
// Columns
// ---------------------------------------------------------------------------

/// The columns of a row, by name, with what stands in them.
pub open spec fn cells(s: StoredView) -> Seq<(Seq<char>, BindView)> {
    seq![
        ("id"@, BindView::Text(s.id)),
        ("ts"@, BindView::Text(s.ts)),
        ("via"@, BindView::Text(s.via)),
        ("source"@, BindView::Text(s.source)),
        ("target"@, opt_bind(s.target)),
        ("content"@, BindView::Text(s.content)),
        ("meta"@, BindView::Text(s.meta)),
        ("delivered_to"@, BindView::Text(s.delivered_to)),
        ("delivery_errors"@, BindView::Text(s.delivery_errors)),
        ("sender_addr"@, opt_bind(s.sender_addr)),
        ("sender_session_id"@, opt_bind(s.sender_session_id)),
    ]
}

/// The names of the columns, as a statement lists them.
pub open spec fn column_list(s: StoredView) -> Seq<char> {
    join(cells(s).map_values(|c: (Seq<char>, BindView)| c.0), ", "@)
}

proof fn lemma_column_list(s: StoredView)
    ensures
        column_list(s)
            == "id, ts, via, source, target, content, meta, delivered_to, delivery_errors, sender_addr, sender_session_id"@,
{
    let names = cells(s).map_values(|c: (Seq<char>, BindView)| c.0);
    let sep = ", "@;
    reveal_strlit(", ");
    reveal_strlit("id");
    reveal_strlit("ts");
    reveal_strlit("via");
    reveal_strlit("source");
    reveal_strlit("target");
    reveal_strlit("content");
    reveal_strlit("meta");
    reveal_strlit("delivered_to");
    reveal_strlit("delivery_errors");
    reveal_strlit("sender_addr");
    reveal_strlit("sender_session_id");
    reveal_strlit(
        "id, ts, via, source, target, content, meta, delivered_to, delivery_errors, sender_addr, sender_session_id",
    );
    lemma_join_take(names, sep, 1);
    lemma_join_take(names, sep, 2);
    lemma_join_take(names, sep, 3);
    lemma_join_take(names, sep, 4);
    lemma_join_take(names, sep, 5);
    lemma_join_take(names, sep, 6);
    lemma_join_take(names, sep, 7);
    lemma_join_take(names, sep, 8);
    lemma_join_take(names, sep, 9);
    lemma_join_take(names, sep, 10);
    assert(names.take(1)[0] == names[0]);
    assert(names.take(11) =~= names);
    assert(column_list(s)
        =~= "id, ts, via, source, target, content, meta, delivered_to, delivery_errors, sender_addr, sender_session_id"@);
}

proof fn lemma_join_take(parts: Seq<Seq<char>>, sep: Seq<char>, n: int)
    requires
        1 <= n < parts.len(),
    ensures
        join(parts.take(n + 1), sep) == join(parts.take(n), sep) + sep + parts[n],
{
    assert(parts.take(n + 1).drop_last() =~= parts.take(n));
}

/// What is inserted is what is read: an insertion binds, to the columns that it
/// names, what stands in them, in their order; and a listing and a look-up name
/// the same columns.
pub proof fn law_insertion_binds_the_columns(s: StoredView, f: ListFilters, id: u128)
    ensures
        insert_statement(s).binds == cells(s).map_values(|c: (Seq<char>, BindView)| c.1),
        insert_statement(s).sql == "INSERT INTO messages ("@ + column_list(s) + ") VALUES ("@
            + "?, ?, ?, ?, ?, ?, ?, ?, ?, ?, ?)"@,
        list_statement(f).sql == "SELECT "@ + column_list(s) + " FROM messages "@ + where_sql(
            f.conditions(),
        ) + " ORDER BY ts DESC LIMIT ? OFFSET ?"@,
        get_statement(id).sql == "SELECT "@ + column_list(s) + " FROM messages "@
            + "WHERE id = ?"@,
{
    lemma_column_list(s);
    reveal_strlit("INSERT INTO messages (");
    reveal_strlit(") VALUES (");
    reveal_strlit("SELECT ");
    reveal_strlit(" FROM messages ");
    reveal_strlit(
        "id, ts, via, source, target, content, meta, delivered_to, delivery_errors, sender_addr, sender_session_id",
    );
    reveal_strlit(
        "INSERT INTO messages (id, ts, via, source, target, content, meta, delivered_to, delivery_errors, sender_addr, sender_session_id) VALUES (",
    );
    reveal_strlit(
        "SELECT id, ts, via, source, target, content, meta, delivered_to, delivery_errors, sender_addr, sender_session_id FROM messages ",
    );
    assert("INSERT INTO messages ("@ + column_list(s) + ") VALUES ("@
        =~= "INSERT INTO messages (id, ts, via, source, target, content, meta, delivered_to, delivery_errors, sender_addr, sender_session_id) VALUES ("@);
    assert("SELECT "@ + column_list(s) + " FROM messages "@
        =~= "SELECT id, ts, via, source, target, content, meta, delivered_to, delivery_errors, sender_addr, sender_session_id FROM messages "@);
    assert(insert_statement(s).binds =~= cells(s).map_values(|c: (Seq<char>, BindView)| c.1));
}

// ---------------------------------------------------------------------------
// Insertion and look-up
// ---------------------------------------------------------------------------

/// Whether some rows make a table: no two have one identifier.
pub open spec fn is_table(rows: Seq<StoredView>) -> bool {
    forall|i: int, j: int|
        0 <= i < j < rows.len() ==> (#[trigger] rows[i]).id != (#[trigger] rows[j]).id
}

/// Whether a row has an identifier.
pub open spec fn holds_id(rows: Seq<StoredView>, id: Seq<char>) -> bool {
    exists|i: int| 0 <= i < rows.len() && (#[trigger] rows[i]).id == id
}

/// The table after the insertion of a row, which is refused where its identifier
/// is taken.
pub open spec fn inserted(rows: Seq<StoredView>, s: StoredView) -> Option<Seq<StoredView>> {
    if holds_id(rows, s.id) {
        None
    } else {
        Some(rows.push(s))
    }
}

/// The row of an identifier.
pub open spec fn found(rows: Seq<StoredView>, id: u128) -> Option<StoredView> {
    if holds_id(rows, id_text(id)) {
        Some(rows[choose|i: int| 0 <= i < rows.len() && (#[trigger] rows[i]).id == id_text(id)])
    } else {
        None
    }
}

/// A stored message is found again under its identifier, column for column; no
/// other identifier is looked up differently than before; and the same
/// identifier is not stored twice. Where the message can be read back without
/// loss, `row_to_message` turns the columns back into it.
pub proof fn law_inserted_is_found(rows: Seq<StoredView>, m: MessageView, other: u128)
    requires
        is_table(rows),
        found(rows, m.id) is None,
    ensures
        inserted(rows, m.stored()) is Some,
        is_table(inserted(rows, m.stored())->Some_0),
        found(inserted(rows, m.stored())->Some_0, m.id) == Some(m.stored()),
        other != m.id ==> found(inserted(rows, m.stored())->Some_0, other) == found(rows, other),
        forall|again: MessageView|
            again.id == m.id ==> inserted(
                inserted(rows, m.stored())->Some_0,
                #[trigger] again.stored(),
            ) is None,
{
    let s = m.stored();
    let after = rows.push(s);
    let n = rows.len() as int;
    assert(after[n] == s);
    assert(holds_id(after, id_text(m.id)));
    assert forall|i: int| 0 <= i < after.len() && (#[trigger] after[i]).id == id_text(
        m.id,
    ) implies i == n by {
        if i < n {
            assert(rows[i].id == id_text(m.id));
        }
    }
    assert forall|i: int, j: int| 0 <= i < j < after.len() implies (#[trigger] after[i]).id != (
    #[trigger] after[j]).id by {
        assert(after[i] == rows[i]);
        if j < n {
            assert(after[j] == rows[j]);
        }
    }
    if other != m.id {
        if id_text(other) == id_text(m.id) {
            law_id_texts_differ(other, m.id);
        }
        lemma_found_elsewhere(rows, s, other);
    }
    assert forall|again: MessageView| again.id == m.id implies inserted(
        after,
        #[trigger] again.stored(),
    ) is None by {
        assert(after[n].id == again.stored().id);
    }
}

proof fn lemma_found_elsewhere(rows: Seq<StoredView>, s: StoredView, id: u128)
    requires
        is_table(rows),
        s.id != id_text(id),
    ensures
        found(rows.push(s), id) == found(rows, id),
{
    let after = rows.push(s);
    if holds_id(rows, id_text(id)) {
        let i = choose|i: int| 0 <= i < rows.len() && (#[trigger] rows[i]).id == id_text(id);
        assert(after[i].id == id_text(id));
        let j = choose|j: int| 0 <= j < after.len() && (#[trigger] after[j]).id == id_text(id);
        assert(j < rows.len());
        assert(rows[j].id == id_text(id));
        if i < j {
            assert(rows[i].id != rows[j].id);
        } else if j < i {
            assert(rows[j].id != rows[i].id);
        }
    } else if holds_id(after, id_text(id)) {
        let j = choose|j: int| 0 <= j < after.len() && (#[trigger] after[j]).id == id_text(id);
        assert(rows[j].id == id_text(id));
    }
}

// ---------------------------------------------------------------------------
// Listing and counting
// ---------------------------------------------------------------------------

/// The rows that filters select.
pub open spec fn selected(rows: Seq<StoredView>, f: ListFilters) -> Seq<StoredView> {
    rows.filter(|m: StoredView| f.selects(m))
}

/// Whether rows are in the order of a listing: none comes before a newer one.
pub open spec fn newest_first(v: Seq<StoredView>) -> bool {
    forall|i: int, j: int|
        0 <= i < j < v.len() ==> !text_less((#[trigger] v[i]).ts, (#[trigger] v[j]).ts)
}

/// Whether rows are all that filters select, in the order of a listing.
pub open spec fn is_whole_list(
    rows: Seq<StoredView>,
    f: ListFilters,
    all: Seq<StoredView>,
) -> bool {
    newest_first(all) && all.to_multiset() == selected(rows, f).to_multiset()
}

/// So many rows from an offset on, as far as there are any.
pub open spec fn window(all: Seq<StoredView>, offset: int, limit: int) -> Seq<StoredView> {
    let start = if offset < all.len() {
        offset
    } else {
        all.len() as int
    };
    let end = if start + limit < all.len() {
        start + limit
    } else {
        all.len() as int
    };
    all.subrange(start, end)
}

/// Whether rows are what a listing under filters is to give. A window starts
/// nowhere before the first row and is never negative in length.
pub open spec fn is_listing(rows: Seq<StoredView>, f: ListFilters, v: Seq<StoredView>) -> bool {
    &&& f.offset >= 0
    &&& f.limit >= 0
    &&& exists|all: Seq<StoredView>| #[trigger]
        is_whole_list(rows, f, all) && v == window(all, f.offset as int, f.limit as int)
}

/// The number that a count under filters is to give.
pub open spec fn counted(rows: Seq<StoredView>, f: ListFilters) -> nat {
    selected(rows, f).len()
}

/// The same filters with another window.
pub open spec fn with_window(f: ListFilters, limit: i64, offset: i64) -> ListFilters {
    ListFilters { limit, offset, ..f }
}

/// The count is that of the whole list, whatever the window: it is asked for
/// under the same clause with the same binds, less the window's two; and it is
/// the length of the listing whose window leaves nothing out.
pub proof fn law_count_is_of_the_whole_list(
    rows: Seq<StoredView>,
    f: ListFilters,
    limit: i64,
    offset: i64,
    v: Seq<StoredView>,
)
    ensures
        count_statement(with_window(f, limit, offset)) == count_statement(f),
        list_statement(f).binds == count_statement(f).binds + seq![
            BindView::Int(f.limit as int),
            BindView::Int(f.offset as int),
        ],
        count_statement(f).sql == "SELECT COUNT(*) as c FROM messages "@ + where_sql(
            f.conditions(),
        ),
        counted(rows, with_window(f, limit, offset)) == counted(rows, f),
        f.offset == 0 && f.limit >= counted(rows, f) && is_listing(rows, f, v) ==> v.len()
            == counted(rows, f),
{
    let g = with_window(f, limit, offset);
    assert(g.conditions() == f.conditions());
    assert((|m: StoredView| g.selects(m)) =~= (|m: StoredView| f.selects(m)));
    if is_listing(rows, f, v) {
        let all = choose|all: Seq<StoredView>| #[trigger]
            is_whole_list(rows, f, all) && v == window(all, f.offset as int, f.limit as int);
        lemma_whole_list_len(rows, f, all);
    }
}

proof fn lemma_whole_list_len(rows: Seq<StoredView>, f: ListFilters, all: Seq<StoredView>)
    requires
        is_whole_list(rows, f, all),
    ensures
        all.len() == counted(rows, f),
{
    all.to_multiset_ensures();
    selected(rows, f).to_multiset_ensures();
}

/// What is listed is in the table and selected; and what is selected is in the
/// whole list.
pub proof fn law_listed_rows_are_the_selected(
    rows: Seq<StoredView>,
    f: ListFilters,
    all: Seq<StoredView>,
    m: StoredView,
)
    requires
        is_whole_list(rows, f, all),
    ensures
        all.contains(m) <==> rows.contains(m) && f.selects(m),
{
    let p = |m: StoredView| f.selects(m);
    all.to_multiset_ensures();
    rows.filter(p).to_multiset_ensures();
    lemma_filter_holds(rows, p, m);
    assert(all.contains(m) <==> all.to_multiset().contains(m));
    assert(rows.filter(p).contains(m) <==> rows.filter(p).to_multiset().contains(m));
}

/// With only the two participants of a conversation set, the whole list is that
/// of the messages between them, in both directions, and of no others.
pub proof fn law_conversation_is_listed(
    rows: Seq<StoredView>,
    f: ListFilters,
    a: Seq<char>,
    b: Seq<char>,
    all: Seq<StoredView>,
    m: StoredView,
)
    requires
        is_whole_list(rows, f, all),
        opt_view(f.participant_a) == Some(a),
        opt_view(f.participant_b) == Some(b),
        a != b,
        f.source is None,
        f.target is None,
        f.exclude@.len() == 0,
        f.since is None,
        f.until is None,
    ensures
        all.contains(m) <==> rows.contains(m) && ((m.source == a && m.target == Some(b)) || (
        m.source == b && m.target == Some(a))),
{
    law_listed_rows_are_the_selected(rows, f, all, m);
    if f.selects(m) {
        law_conversation(f, a, b, m);
    }
    if (m.source == a && m.target == Some(b)) || (m.source == b && m.target == Some(a)) {
        law_conversation_complete(f, a, b, m);
    }
}

/// Stored messages are listed newest first by their times: rows are in the order
/// of a listing if and only if none was sent before one that comes after it.
/// That each message sorts by its time, `insert_message` ensures.
pub proof fn law_listing_is_by_time(ms: Seq<MessageView>)
    requires
        forall|i: int|
            0 <= i < ms.len() ==> is_writable((#[trigger] ms[i]).ts) && sorts_by_time(ms[i]),
    ensures
        newest_first(ms.map_values(|m: MessageView| m.stored())) <==> forall|i: int, j: int|
            0 <= i < j < ms.len() ==> !(#[trigger] ms[i]).ts.before((#[trigger] ms[j]).ts),
{
    let rows = ms.map_values(|m: MessageView| m.stored());
    assert forall|i: int, j: int| 0 <= i < j < ms.len() implies (text_less(
        (#[trigger] rows[i]).ts,
        (#[trigger] rows[j]).ts,
    ) <==> ms[i].ts.before(ms[j].ts)) by {
        assert(rows[i] == ms[i].stored());
        assert(rows[j] == ms[j].stored());
        assert(sorts_by_time(ms[j]));
        assert(is_writable(ms[i].ts));
    }
    if newest_first(rows) {
        assert forall|i: int, j: int| 0 <= i < j < ms.len() implies !(#[trigger] ms[i]).ts.before(
            (#[trigger] ms[j]).ts,
        ) by {
            assert(!text_less(rows[i].ts, rows[j].ts));
        }
    }
    if forall|i: int, j: int|
        0 <= i < j < ms.len() ==> !(#[trigger] ms[i]).ts.before((#[trigger] ms[j]).ts) {
        assert forall|i: int, j: int| 0 <= i < j < rows.len() implies !text_less(
            (#[trigger] rows[i]).ts,
            (#[trigger] rows[j]).ts,
        ) by {
            assert(!ms[i].ts.before(ms[j].ts));
        }
    }
}

proof fn lemma_filter_holds(
    rows: Seq<StoredView>,
    p: spec_fn(StoredView) -> bool,
    m: StoredView,
)
    ensures
        rows.filter(p).contains(m) <==> rows.contains(m) && p(m),
    decreases rows.len(),
{
    reveal(Seq::filter);
    let g = rows.filter(p);
    if rows.len() > 0 {
        let rest = rows.drop_last();
        let h = rest.filter(p);
        lemma_filter_holds(rest, p, m);
        if g.contains(m) {
            let k = choose|k: int| 0 <= k < g.len() && g[k] == m;
            if k < h.len() {
                assert(h[k] == m);
                let j = choose|j: int| 0 <= j < rest.len() && rest[j] == m;
                assert(rows[j] == m);
            } else {
                assert(rows[rows.len() - 1] == m);
            }
        }
        if rows.contains(m) && p(m) {
            let j = choose|j: int| 0 <= j < rows.len() && rows[j] == m;
            if j < rest.len() {
                assert(rest[j] == m);
                let k = choose|k: int| 0 <= k < h.len() && h[k] == m;
                assert(g[k] == m);
            } else {
                assert(g[g.len() - 1] == m);
            }
        }
    }
}

/// The first pages of a list, one after another.
pub open spec fn pages(all: Seq<StoredView>, limit: int, count: nat) -> Seq<StoredView>
    decreases count,
{
    if count == 0 {
        Seq::empty()
    } else {
        pages(all, limit, (count - 1) as nat) + window(all, (count - 1) * limit, limit)
    }
}

/// Pages one after another give the list from its start, with no row missing or
/// repeated; enough of them give all of it.
pub proof fn law_pages_join(all: Seq<StoredView>, limit: int, count: nat)
    requires
        limit > 0,
    ensures
        count * limit >= all.len() ==> pages(all, limit, count) == all,
        count * limit < all.len() ==> pages(all, limit, count) == all.take(count * limit),
    decreases count,
{
    if count > 0 {
        let k = (count - 1) as nat;
        law_pages_join(all, limit, k);
        assert(count * limit == k * limit + limit) by (nonlinear_arith)
            requires
                count == k + 1,
        ;
        assert(k * limit >= 0) by (nonlinear_arith)
            requires
                limit > 0,
        ;
        if count * limit < all.len() {
            assert(pages(all, limit, count) =~= all.take(count * limit));
        } else {
            assert(pages(all, limit, count) =~= all);
        }
    } else {
        assert(count * limit == 0) by (nonlinear_arith)
            requires
                count == 0,
        ;
        if 0 < all.len() {
            assert(all.take(0) =~= Seq::empty());
        } else {
            assert(all =~= Seq::empty());
        }
    }
}

proof fn lemma_text_order_is_total(a: Seq<char>, b: Seq<char>)
    requires
        !text_less(a, b),
        !text_less(b, a),
    ensures
        a == b,
    decreases a.len(),
{
    if a.len() > 0 && b.len() > 0 {
        lemma_text_order_is_total(a.skip(1), b.skip(1));
        assert(a =~= seq![a[0]] + a.skip(1));
        assert(b =~= seq![b[0]] + b.skip(1));
    } else {
        assert(a =~= b);
    }
}

/// Where no two selected rows have one time, there is one list of them, and so
/// one listing for each window.
pub proof fn law_listing_is_determined(
    rows: Seq<StoredView>,
    f: ListFilters,
    a: Seq<StoredView>,
    b: Seq<StoredView>,
)
    requires
        is_whole_list(rows, f, a),
        is_whole_list(rows, f, b),
        forall|x: StoredView, y: StoredView|
            rows.contains(x) && rows.contains(y) && f.selects(x) && f.selects(y)
                && #[trigger] x.ts == #[trigger] y.ts ==> x == y,
    ensures
        a == b,
{
    assert forall|x: StoredView, y: StoredView|
        a.contains(x) && a.contains(y) && #[trigger] x.ts == #[trigger] y.ts implies x == y by {
        law_listed_rows_are_the_selected(rows, f, a, x);
        law_listed_rows_are_the_selected(rows, f, a, y);
    }
    lemma_order_is_unique(a, b);
}

proof fn lemma_order_is_unique(a: Seq<StoredView>, b: Seq<StoredView>)
    requires
        newest_first(a),
        newest_first(b),
        a.to_multiset() == b.to_multiset(),
        forall|x: StoredView, y: StoredView|
            a.contains(x) && a.contains(y) && #[trigger] x.ts == #[trigger] y.ts ==> x == y,
    ensures
        a == b,
    decreases a.len(),
{
    a.to_multiset_ensures();
    b.to_multiset_ensures();
    if a.len() == 0 {
        assert(a =~= b);
    } else {
        let x = a[0];
        let y = b[0];
        assert(a.contains(x) && b.contains(y));
        assert(a.to_multiset().contains(x) && b.to_multiset().contains(y));
        assert(b.contains(x) && a.contains(y));
        let j = choose|j: int| 0 <= j < b.len() && b[j] == x;
        let i = choose|i: int| 0 <= i < a.len() && a[i] == y;
        if x != y {
            assert(!text_less(a[0].ts, a[i].ts));
            assert(!text_less(b[0].ts, b[j].ts));
            lemma_text_order_is_total(x.ts, y.ts);
        }
        let a1 = a.remove(0);
        let b1 = b.remove(0);
        assert(a1.to_multiset() == a.to_multiset().remove(x));
        assert(b1.to_multiset() == b.to_multiset().remove(y));
        assert forall|i: int, j: int| 0 <= i < j < a1.len() implies !text_less(
            (#[trigger] a1[i]).ts,
            (#[trigger] a1[j]).ts,
        ) by {
            assert(a1[i] == a[i + 1] && a1[j] == a[j + 1]);
        }
        assert forall|i: int, j: int| 0 <= i < j < b1.len() implies !text_less(
            (#[trigger] b1[i]).ts,
            (#[trigger] b1[j]).ts,
        ) by {
            assert(b1[i] == b[i + 1] && b1[j] == b[j + 1]);
        }
        assert forall|u: StoredView, w: StoredView|
            a1.contains(u) && a1.contains(w) && #[trigger] u.ts == #[trigger] w.ts implies u
            == w by {
            let p = choose|p: int| 0 <= p < a1.len() && a1[p] == u;
            let q = choose|q: int| 0 <= q < a1.len() && a1[q] == w;
            assert(a[p + 1] == u && a[q + 1] == w);
        }
        lemma_order_is_unique(a1, b1);
        assert(a =~= seq![x] + a1);
        assert(b =~= seq![y] + b1);
    }
}

// ---------------------------------------------------------------------------
// Labels
// ---------------------------------------------------------------------------

/// What stands in a label column of a row.
pub open spec fn label_in_column(s: StoredView, column: Seq<char>) -> Option<Seq<char>> {
    if column == "source"@ {
        Some(s.source)
    } else {
        s.target
    }
}

/// The labels in a column, row by row, without rows that have none.
pub open spec fn column_labels(rows: Seq<StoredView>, column: Seq<char>) -> Seq<Seq<char>>
    decreases rows.len(),
{
    if rows.len() == 0 {
        Seq::empty()
    } else {
        let head = column_labels(rows.drop_last(), column);
        match label_in_column(rows.last(), column) {
            Some(l) => head.push(l),
            None => head,
        }
    }
}

/// Ascending labels with one more, at its place, unless it is there.
pub open spec fn with_label(labels: Seq<Seq<char>>, l: Seq<char>) -> Seq<Seq<char>>
    decreases labels.len(),
{
    if labels.len() == 0 {
        seq![l]
    } else if l == labels[0] {
        labels
    } else if text_less(l, labels[0]) {
        seq![l] + labels
    } else {
        seq![labels[0]] + with_label(labels.skip(1), l)
    }
}

/// Labels in ascending order, each once.
pub open spec fn sorted_once(labels: Seq<Seq<char>>) -> Seq<Seq<char>>
    decreases labels.len(),
{
    if labels.len() == 0 {
        Seq::empty()
    } else {
        with_label(sorted_once(labels.drop_last()), labels.last())
    }
}

/// What the statement for the distinct labels of a column is to give.
pub open spec fn listed_labels(rows: Seq<StoredView>, column: Seq<char>) -> Seq<Seq<char>> {
    sorted_once(column_labels(rows, column))
}

/// What the statement for the participants is to give: the labels of both
/// columns together.
pub open spec fn listed_participants(rows: Seq<StoredView>) -> Seq<Seq<char>> {
    sorted_once(column_labels(rows, "source"@) + column_labels(rows, "target"@))
}

/// Whether each label comes before all that follow it; so none stands twice.
pub open spec fn ascending(labels: Seq<Seq<char>>) -> bool {
    forall|i: int, j: int|
        0 <= i < j < labels.len() ==> text_less(#[trigger] labels[i], #[trigger] labels[j])
}

proof fn lemma_text_less_transitive(a: Seq<char>, b: Seq<char>, c: Seq<char>)
    requires
        text_less(a, b),
        text_less(b, c),
    ensures
        text_less(a, c),
    decreases a.len(),
{
    if a.len() > 0 && b.len() > 0 && c.len() > 0 && a[0] == b[0] && b[0] == c[0] {
        lemma_text_less_transitive(a.skip(1), b.skip(1), c.skip(1));
    }
}

proof fn lemma_with_label(labels: Seq<Seq<char>>, l: Seq<char>)
    requires
        ascending(labels),
    ensures
        ascending(with_label(labels, l)),
        forall|x: Seq<char>| #[trigger]
            with_label(labels, l).contains(x) <==> labels.contains(x) || x == l,
    decreases labels.len(),
{
    let r = with_label(labels, l);
    if labels.len() == 0 {
        assert(r[0] == l);
    } else if l == labels[0] {
    } else if text_less(l, labels[0]) {
        assert forall|i: int, j: int| 0 <= i < j < r.len() implies text_less(
            #[trigger] r[i],
            #[trigger] r[j],
        ) by {
            assert(r[j] == labels[j - 1]);
            if i == 0 {
                if j > 1 {
                    lemma_text_less_transitive(l, labels[0], labels[j - 1]);
                }
            } else {
                assert(r[i] == labels[i - 1]);
            }
        }
        assert forall|x: Seq<char>| #[trigger] r.contains(x) <==> labels.contains(x) || x == l by {
            if labels.contains(x) {
                let k = choose|k: int| 0 <= k < labels.len() && labels[k] == x;
                assert(r[k + 1] == x);
            }
            if x == l {
                assert(r[0] == x);
            }
            if r.contains(x) {
                let k = choose|k: int| 0 <= k < r.len() && r[k] == x;
                if k > 0 {
                    assert(labels[k - 1] == x);
                }
            }
        }
    } else {
        let rest = labels.skip(1);
        let tail = with_label(rest, l);
        assert forall|i: int, j: int| 0 <= i < j < rest.len() implies text_less(
            #[trigger] rest[i],
            #[trigger] rest[j],
        ) by {
            assert(rest[i] == labels[i + 1] && rest[j] == labels[j + 1]);
        }
        lemma_with_label(rest, l);
        if !text_less(labels[0], l) {
            lemma_text_order_is_total(labels[0], l);
        }
        assert forall|i: int, j: int| 0 <= i < j < r.len() implies text_less(
            #[trigger] r[i],
            #[trigger] r[j],
        ) by {
            assert(r[j] == tail[j - 1]);
            assert(tail.contains(tail[j - 1]));
            if i == 0 {
                if tail[j - 1] != l {
                    let k = choose|k: int| 0 <= k < rest.len() && rest[k] == tail[j - 1];
                    assert(labels[k + 1] == tail[j - 1]);
                }
            } else {
                assert(r[i] == tail[i - 1]);
            }
        }
        assert forall|x: Seq<char>| #[trigger] r.contains(x) <==> labels.contains(x) || x == l by {
            if tail.contains(x) {
                let k = choose|k: int| 0 <= k < tail.len() && tail[k] == x;
                assert(r[k + 1] == x);
            }
            if labels.contains(x) {
                let k = choose|k: int| 0 <= k < labels.len() && labels[k] == x;
                if k == 0 {
                    assert(r[0] == x);
                } else {
                    assert(rest[k - 1] == x);
                    assert(tail.contains(x));
                }
            }
            if x == l {
                assert(tail.contains(x));
            }
            if r.contains(x) {
                let k = choose|k: int| 0 <= k < r.len() && r[k] == x;
                if k == 0 {
                    assert(labels[0] == x);
                } else {
                    assert(tail[k - 1] == x);
                    assert(tail.contains(x));
                    if rest.contains(x) {
                        let n = choose|n: int| 0 <= n < rest.len() && rest[n] == x;
                        assert(labels[n + 1] == x);
                    }
                }
            }
        }
    }
}

proof fn lemma_sorted_once(labels: Seq<Seq<char>>)
    ensures
        ascending(sorted_once(labels)),
        forall|x: Seq<char>| #[trigger]
            sorted_once(labels).contains(x) <==> labels.contains(x),
    decreases labels.len(),
{
    if labels.len() > 0 {
        let rest = labels.drop_last();
        let r = sorted_once(labels);
        lemma_sorted_once(rest);
        lemma_with_label(sorted_once(rest), labels.last());
        assert forall|x: Seq<char>| #[trigger] r.contains(x) <==> labels.contains(x) by {
            assert(r.contains(x) <==> sorted_once(rest).contains(x) || x == labels.last());
            if rest.contains(x) {
                let k = choose|k: int| 0 <= k < rest.len() && rest[k] == x;
                assert(labels[k] == x);
            }
            if labels.contains(x) {
                let k = choose|k: int| 0 <= k < labels.len() && labels[k] == x;
                if k < rest.len() {
                    assert(rest[k] == x);
                }
            }
            if x == labels.last() {
                assert(labels[labels.len() - 1] == x);
            }
        }
    }
}

proof fn lemma_column_labels(rows: Seq<StoredView>, column: Seq<char>, l: Seq<char>)
    ensures
        column_labels(rows, column).contains(l) <==> exists|i: int|
            0 <= i < rows.len() && label_in_column(#[trigger] rows[i], column) == Some(l),
    decreases rows.len(),
{
    let all = column_labels(rows, column);
    if rows.len() > 0 {
        let rest = rows.drop_last();
        let head = column_labels(rest, column);
        let n = rows.len() - 1;
        lemma_column_labels(rest, column, l);
        if all.contains(l) {
            let k = choose|k: int| 0 <= k < all.len() && all[k] == l;
            if k < head.len() {
                assert(head[k] == l);
                let i = choose|i: int|
                    0 <= i < rest.len() && label_in_column(#[trigger] rest[i], column) == Some(l);
                assert(label_in_column(rows[i], column) == Some(l));
            } else {
                assert(label_in_column(rows[n], column) == Some(l));
            }
        }
        if exists|i: int|
            0 <= i < rows.len() && label_in_column(#[trigger] rows[i], column) == Some(l) {
            let i = choose|i: int|
                0 <= i < rows.len() && label_in_column(#[trigger] rows[i], column) == Some(l);
            if i < n {
                assert(label_in_column(rest[i], column) == Some(l));
                let k = choose|k: int| 0 <= k < head.len() && head[k] == l;
                assert(all[k] == l);
            } else {
                assert(all[all.len() - 1] == l);
            }
        }
    }
}

/// The distinct labels of a column are in ascending order, each once, and a
/// label is among them if and only if some row has it there.
pub proof fn law_labels_are_listed(rows: Seq<StoredView>, column: Seq<char>, l: Seq<char>)
    requires
        is_label_column(column),
    ensures
        ascending(listed_labels(rows, column)),
        column == "source"@ ==> (listed_labels(rows, column).contains(l) <==> exists|i: int|
            0 <= i < rows.len() && (#[trigger] rows[i]).source == l),
        column == "target"@ ==> (listed_labels(rows, column).contains(l) <==> exists|i: int|
            0 <= i < rows.len() && (#[trigger] rows[i]).target == Some(l)),
{
    lemma_columns_differ();
    lemma_sorted_once(column_labels(rows, column));
    lemma_column_labels(rows, column, l);
    lemma_labels_of_rows(rows, l);
}

proof fn lemma_columns_differ()
    ensures
        "source"@ != "target"@,
{
    reveal_strlit("source");
    reveal_strlit("target");
    assert("source"@[0] != "target"@[0]);
}

proof fn lemma_labels_of_rows(rows: Seq<StoredView>, l: Seq<char>)
    ensures
        (exists|i: int|
            0 <= i < rows.len() && label_in_column(#[trigger] rows[i], "source"@) == Some(l))
            <==> (exists|i: int| 0 <= i < rows.len() && (#[trigger] rows[i]).source == l),
        (exists|i: int|
            0 <= i < rows.len() && label_in_column(#[trigger] rows[i], "target"@) == Some(l))
            <==> (exists|i: int| 0 <= i < rows.len() && (#[trigger] rows[i]).target == Some(l)),
{
    lemma_columns_differ();
}

/// The participants are in ascending order, each once, and a label is among them
/// if and only if some row has it as its sender or as its target.
pub proof fn law_participants_are_listed(rows: Seq<StoredView>, l: Seq<char>)
    ensures
        ascending(listed_participants(rows)),
        listed_participants(rows).contains(l) <==> exists|i: int|
            0 <= i < rows.len() && ((#[trigger] rows[i]).source == l || rows[i].target == Some(l)),
{
    let a = column_labels(rows, "source"@);
    let b = column_labels(rows, "target"@);
    lemma_sorted_once(a + b);
    lemma_column_labels(rows, "source"@, l);
    lemma_column_labels(rows, "target"@, l);
    lemma_labels_of_rows(rows, l);
    if (a + b).contains(l) {
        let k = choose|k: int| 0 <= k < (a + b).len() && (a + b)[k] == l;
        if k < a.len() {
            assert(a[k] == l);
        } else {
            assert(b[k - a.len()] == l);
        }
    }
    if a.contains(l) {
        let k = choose|k: int| 0 <= k < a.len() && a[k] == l;
        assert((a + b)[k] == l);
    }
    if b.contains(l) {
        let k = choose|k: int| 0 <= k < b.len() && b[k] == l;
        assert((a + b)[a.len() + k] == l);
    }
}

// ---------------------------------------------------------------------------
// The table
// ---------------------------------------------------------------------------

/// How a column is declared: the first is the key, and only those that can be
/// left out of a message may be null.
pub open spec fn declared(column: Seq<char>) -> Seq<char> {
    if column == "id"@ {
        column + " TEXT PRIMARY KEY"@
    } else if column == "target"@ || column == "sender_addr"@ || column == "sender_session_id"@ {
        column + " TEXT"@
    } else {
        column + " TEXT NOT NULL"@
    }
}

/// The table has the columns that an insertion names, in their order, each
/// declared as text, with an index on each that messages are looked for by.
pub proof fn law_table_has_the_columns(s: StoredView)
    ensures
        schema().len() == 4,
        schema()[0].sql == "CREATE TABLE IF NOT EXISTS messages ("@ + join(
            cells(s).map_values(|c: (Seq<char>, BindView)| declared(c.0)),
            ", "@,
        ) + ")"@,
        schema()[1].sql == "CREATE INDEX IF NOT EXISTS idx_messages_ts ON messages(ts)"@,
        schema()[2].sql == "CREATE INDEX IF NOT EXISTS idx_messages_source ON messages(source)"@,
        schema()[3].sql == "CREATE INDEX IF NOT EXISTS idx_messages_target ON messages(target)"@,
        forall|i: int| 0 <= i < 4 ==> (#[trigger] schema()[i]).binds.len() == 0,
{
    let parts = cells(s).map_values(|c: (Seq<char>, BindView)| declared(c.0));
    let sep = ", "@;
    reveal_strlit(", ");
    reveal_strlit("id");
    reveal_strlit("ts");
    reveal_strlit("via");
    reveal_strlit("source");
    reveal_strlit("target");
    reveal_strlit("content");
    reveal_strlit("meta");
    reveal_strlit("delivered_to");
    reveal_strlit("delivery_errors");
    reveal_strlit("sender_addr");
    reveal_strlit("sender_session_id");
    reveal_strlit(" TEXT PRIMARY KEY");
    reveal_strlit(" TEXT");
    reveal_strlit(" TEXT NOT NULL");
    reveal_strlit("CREATE TABLE IF NOT EXISTS messages (");
    reveal_strlit(")");
    reveal_strlit(
        "CREATE TABLE IF NOT EXISTS messages (id TEXT PRIMARY KEY, ts TEXT NOT NULL, via TEXT NOT NULL, source TEXT NOT NULL, target TEXT, content TEXT NOT NULL, meta TEXT NOT NULL, delivered_to TEXT NOT NULL, delivery_errors TEXT NOT NULL, sender_addr TEXT, sender_session_id TEXT)",
    );
    assert("ts"@[0] != "id"@[0]);
    assert("via"@.len() == 3);
    assert("source"@[0] != "target"@[0]);
    assert("content"@.len() == 7);
    assert("meta"@.len() == 4);
    assert("delivered_to"@.len() == 12);
    assert("delivery_errors"@.len() == 15);
    assert("sender_addr"@.len() == 11);
    assert("sender_session_id"@.len() == 17);
    lemma_join_take(parts, sep, 1);
    lemma_join_take(parts, sep, 2);
    lemma_join_take(parts, sep, 3);
    lemma_join_take(parts, sep, 4);
    lemma_join_take(parts, sep, 5);
    lemma_join_take(parts, sep, 6);
    lemma_join_take(parts, sep, 7);
    lemma_join_take(parts, sep, 8);
    lemma_join_take(parts, sep, 9);
    lemma_join_take(parts, sep, 10);
    assert(parts.take(1)[0] == parts[0]);
    assert(parts.take(11) =~= parts);
    assert("CREATE TABLE IF NOT EXISTS messages ("@ + join(parts, sep) + ")"@
        =~= "CREATE TABLE IF NOT EXISTS messages (id TEXT PRIMARY KEY, ts TEXT NOT NULL, via TEXT NOT NULL, source TEXT NOT NULL, target TEXT, content TEXT NOT NULL, meta TEXT NOT NULL, delivered_to TEXT NOT NULL, delivery_errors TEXT NOT NULL, sender_addr TEXT, sender_session_id TEXT)"@);
}

} // verus!
