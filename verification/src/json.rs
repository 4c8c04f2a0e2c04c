//! JSON text, and the calls into `serde_json`.
//!
//! A JSON value is `serde_json`'s own; what it holds is known here as its compact
//! text. An object is `serde_json`'s map; what it holds is a map from each key to
//! the compact text of the value under it.
use crate::text::{
    decimal, decimal_int, expand, join, lemma_expand_injective, lemma_expand_within, prefix_free, views,
};
use vstd::prelude::*;

verus! {

// ---------------------------------------------------------------------------
// What JSON text is
// ---------------------------------------------------------------------------

/// How a character stands inside a JSON string.
pub open spec fn json_escape(c: char) -> Seq<char> {
    if c == '"' {
        seq!['\\', '"']
    } else if c == '\\' {
        seq!['\\', '\\']
    } else if c == '\u{8}' {
        seq!['\\', 'b']
    } else if c == '\t' {
        seq!['\\', 't']
    } else if c == '\n' {
        seq!['\\', 'n']
    } else if c == '\u{c}' {
        seq!['\\', 'f']
    } else if c == '\r' {
        seq!['\\', 'r']
    } else if (c as int) < 32 {
        seq![
            '\\',
            'u',
            '0',
            '0',
            crate::ids::hex_digit(c as int / 16),
            crate::ids::hex_digit(c as int % 16),
        ]
    } else {
        seq![c]
    }
}

/// The JSON text of a string.
pub open spec fn json_quote(s: Seq<char>) -> Seq<char> {
    seq!['"'] + expand(s, |c: char| json_escape(c)) + seq!['"']
}

/// The JSON text of an array of strings.
pub open spec fn json_list(parts: Seq<Seq<char>>) -> Seq<char> {
    seq!['['] + join(parts.map_values(|p: Seq<char>| json_quote(p)), seq![',']) + seq![']']
}

/// Whether a text holds no line break.
pub open spec fn one_line(s: Seq<char>) -> bool {
    forall|i: int| 0 <= i < s.len() ==> #[trigger] s[i] != '\n'
}

/// The JSON text of a string holds no line break.
pub proof fn lemma_quote_one_line(s: Seq<char>)
    ensures
        one_line(json_quote(s)),
{
    let code = |c: char| json_escape(c);
    let good = |c: char| c != '\n';
    assert forall|c: char, i: int| 0 <= i < (#[trigger] code(c)).len() implies good(
        #[trigger] code(c)[i],
    ) by {
        let d = c as int;
        if d < 32 {
            assert(crate::ids::hex_digit(d / 16) != '\n');
            assert(crate::ids::hex_digit(d % 16) != '\n');
        }
    }
    lemma_expand_within(s, code, good);
    assert forall|i: int| 0 <= i < json_quote(s).len() implies #[trigger] json_quote(s)[i]
        != '\n' by {
        if 0 < i < json_quote(s).len() - 1 {
            assert(good(expand(s, code)[i - 1]));
        }
    }
}

proof fn lemma_join_one_line(parts: Seq<Seq<char>>, sep: Seq<char>)
    requires
        one_line(sep),
        forall|i: int| 0 <= i < parts.len() ==> one_line(#[trigger] parts[i]),
    ensures
        one_line(join(parts, sep)),
    decreases parts.len(),
{
    if parts.len() > 1 {
        lemma_join_one_line(parts.drop_last(), sep);
    }
}

/// The JSON text of an array of strings holds no line break.
pub proof fn lemma_list_one_line(parts: Seq<Seq<char>>)
    ensures
        one_line(json_list(parts)),
{
    let quoted = parts.map_values(|p: Seq<char>| json_quote(p));
    assert forall|i: int| 0 <= i < quoted.len() implies one_line(#[trigger] quoted[i]) by {
        lemma_quote_one_line(parts[i]);
    }
    lemma_join_one_line(quoted, seq![',']);
}

/// Whether one text comes before another, by code point.
pub open spec fn text_less(a: Seq<char>, b: Seq<char>) -> bool
    decreases a.len(),
{
    if b.len() == 0 {
        false
    } else if a.len() == 0 {
        true
    } else if a[0] == b[0] {
        text_less(a.skip(1), b.skip(1))
    } else {
        a[0] < b[0]
    }
}

/// Whether `keys` are the keys of `m`, each once, in ascending order.
pub open spec fn lists_keys(keys: Seq<Seq<char>>, m: Map<Seq<char>, Seq<char>>) -> bool {
    &&& forall|i: int, j: int|
        0 <= i < j < keys.len() ==> text_less(#[trigger] keys[i], #[trigger] keys[j])
    &&& forall|k: Seq<char>| #[trigger] keys.contains(k) <==> m.contains_key(k)
}

/// The text of an object's members in the order of `keys`.
pub open spec fn members_text(keys: Seq<Seq<char>>, m: Map<Seq<char>, Seq<char>>) -> Seq<char> {
    join(keys.map_values(|k: Seq<char>| json_quote(k) + seq![':'] + m[k]), seq![','])
}

/// The JSON text of an object: its members in ascending order of their keys.
pub open spec fn object_text(m: Map<Seq<char>, Seq<char>>) -> Seq<char> {
    let keys = choose|keys: Seq<Seq<char>>| lists_keys(keys, m);
    seq!['{'] + members_text(keys, m) + seq!['}']
}

/// The string that JSON text stands for, where it stands for a string.
pub open spec fn json_text_of(json: Seq<char>) -> Option<Seq<char>> {
    if exists|s: Seq<char>| json == #[trigger] json_quote(s) {
        Some(choose|s: Seq<char>| json == #[trigger] json_quote(s))
    } else {
        None
    }
}

/// The key under which the reader, where it is the first of an object, does not
/// expect a value of any kind.
pub open spec fn reserved_key() -> Seq<char> {
    "$serde_json::private::RawValue"@
}

/// A JSON value as it is written.
#[verifier::ext_equal]
pub enum Json {
    Null,
    Bool(bool),
    Int(int),
    /// A number that is not an integer, by its text.
    Float(Seq<char>),
    Text(Seq<char>),
    List(Seq<Json>),
    /// An object, by its members in ascending order of their keys.
    Members(Seq<(Seq<char>, Json)>),
}

impl Json {
    /// The compact text of the value.
    pub open spec fn text(self) -> Seq<char>
        decreases self,
    {
        match self {
            Json::Null => "null"@,
            Json::Bool(b) => if b {
                "true"@
            } else {
                "false"@
            },
            Json::Int(n) => decimal_int(n),
            Json::Float(t) => t,
            Json::Text(s) => json_quote(s),
            Json::List(items) => seq!['['] + list_text(items) + seq![']'],
            Json::Members(pairs) => seq!['{'] + pairs_text(pairs) + seq!['}'],
        }
    }

    /// How deep arrays and objects are nested in the value.
    pub open spec fn depth(self) -> nat
        decreases self,
    {
        match self {
            Json::List(items) => 1 + list_depth(items),
            Json::Members(pairs) => 1 + pairs_depth(pairs),
            _ => 0,
        }
    }

    /// Whether the reader gives the value back as it was written: its integers
    /// fit into 64 bits, its other numbers are read without rounding, and its
    /// keys are in order, the first not the reserved one.
    pub open spec fn reads_back(self) -> bool
        decreases self,
    {
        match self {
            Json::Int(n) => i64::MIN <= n <= u64::MAX,
            Json::Float(t) => t.len() > 0 && (t[0] == '-' || '0' <= t[0] <= '9') && json_value(t)
                == Some(t),
            Json::List(items) => list_reads_back(items),
            Json::Members(pairs) => pairs_read_back(pairs) && (forall|i: int, j: int|
                0 <= i < j < pairs.len() ==> text_less(
                    (#[trigger] pairs[i]).0,
                    (#[trigger] pairs[j]).0,
                )) && (pairs.len() > 0 ==> pairs[0].0 != reserved_key()),
            _ => true,
        }
    }
}

/// The items of an array with commas between them.
pub open spec fn list_text(items: Seq<Json>) -> Seq<char>
    decreases items,
{
    if items.len() == 0 {
        Seq::empty()
    } else if items.len() == 1 {
        items[0].text()
    } else {
        list_text(items.drop_last()) + seq![','] + items[items.len() - 1].text()
    }
}

/// The members of an object with commas between them.
pub open spec fn pairs_text(pairs: Seq<(Seq<char>, Json)>) -> Seq<char>
    decreases pairs,
{
    if pairs.len() == 0 {
        Seq::empty()
    } else {
        let p = pairs[pairs.len() - 1];
        let member = json_quote(p.0) + seq![':'] + p.1.text();
        if pairs.len() == 1 {
            member
        } else {
            pairs_text(pairs.drop_last()) + seq![','] + member
        }
    }
}

/// The depth of the deepest item.
pub open spec fn list_depth(items: Seq<Json>) -> nat
    decreases items,
{
    if items.len() == 0 {
        0
    } else {
        let rest = list_depth(items.drop_last());
        let last = items[items.len() - 1].depth();
        if rest < last {
            last
        } else {
            rest
        }
    }
}

/// The depth of the deepest member.
pub open spec fn pairs_depth(pairs: Seq<(Seq<char>, Json)>) -> nat
    decreases pairs,
{
    if pairs.len() == 0 {
        0
    } else {
        let rest = pairs_depth(pairs.drop_last());
        let last = pairs[pairs.len() - 1].1.depth();
        if rest < last {
            last
        } else {
            rest
        }
    }
}

/// Whether every item is given back as it was written.
pub open spec fn list_reads_back(items: Seq<Json>) -> bool
    decreases items,
{
    items.len() == 0 || (list_reads_back(items.drop_last()) && items[items.len()
        - 1].reads_back())
}

/// Whether every member is given back as it was written.
pub open spec fn pairs_read_back(pairs: Seq<(Seq<char>, Json)>) -> bool
    decreases pairs,
{
    pairs.len() == 0 || (pairs_read_back(pairs.drop_last()) && pairs[pairs.len()
        - 1].1.reads_back())
}

/// Whether a text is that of a value that the reader gives back as it was
/// written, as a member of an object. The reader takes no more than 127 levels.
pub open spec fn readable(text: Seq<char>) -> bool {
    exists|j: Json| #[trigger] j.reads_back() && j.depth() < 127 && text == j.text()
}

/// Whether the first key of an object, in ascending order, is the reserved one.
pub open spec fn starts_reserved(m: Map<Seq<char>, Seq<char>>) -> bool {
    m.contains_key(reserved_key()) && !exists|k: Seq<char>| #[trigger]
        m.contains_key(k) && text_less(k, reserved_key())
}

/// Whether these are the members of an object that is given back as it was
/// written: each of them is, and the first key is not the reserved one.
pub open spec fn readable_members(m: Map<Seq<char>, Seq<char>>) -> bool {
    &&& m.dom().finite()
    &&& forall|k: Seq<char>| #[trigger] m.contains_key(k) ==> readable(m[k])
    &&& !starts_reserved(m)
}

proof fn lemma_json_escape_differs(c: char, d: char)
    requires
        c != d,
    ensures
        !json_escape(c).is_prefix_of(json_escape(d)),
{
    let a = json_escape(c);
    let b = json_escape(d);
    if a.is_prefix_of(b) {
        assert(a[0] == b[0]);
        if a.len() > 1 {
            assert(a[1] == b[1]);
        }
        if a.len() == 6 && b.len() == 6 {
            assert(a[4] == b[4]);
            assert(a[5] == b[5]);
            crate::ids::lemma_hex_digit_injective(c as int / 16, d as int / 16);
            crate::ids::lemma_hex_digit_injective(c as int % 16, d as int % 16);
            assert(c as int == d as int);
        }
    }
}

/// No character's escape is the start of another's.
pub proof fn lemma_json_escape_prefix_free()
    ensures
        prefix_free(|c: char| json_escape(c)),
{
    let code = |c: char| json_escape(c);
    assert forall|c: char, d: char| c != d implies !(#[trigger] code(c)).is_prefix_of(
        #[trigger] code(d),
    ) by {
        lemma_json_escape_differs(c, d);
    }
}

/// The JSON text of a string determines the string.
pub proof fn lemma_json_quote(s: Seq<char>)
    ensures
        json_text_of(json_quote(s)) == Some(s),
{
    let t = json_text_of(json_quote(s))->Some_0;
    assert(json_quote(t) == json_quote(s));
    let code = |c: char| json_escape(c);
    let n = json_quote(s).len();
    assert(json_quote(s).subrange(1, n - 1) == expand(s, code));
    assert(json_quote(t).subrange(1, n - 1) == expand(t, code));
    lemma_json_escape_prefix_free();
    lemma_expand_injective(s, t, code);
}

/// A string is given back as it was written.
pub proof fn lemma_string_is_readable(s: Seq<char>)
    ensures
        readable(json_quote(s)),
{
    let j = Json::Text(s);
    assert(j.reads_back() && j.depth() < 127 && json_quote(s) == j.text());
}

proof fn lemma_text_less_asymmetric(a: Seq<char>, b: Seq<char>)
    ensures
        !(text_less(a, b) && text_less(b, a)),
        !text_less(a, a),
    decreases a.len(),
{
    if a.len() > 0 && b.len() > 0 && a[0] == b[0] {
        lemma_text_less_asymmetric(a.skip(1), b.skip(1));
    }
    if a.len() > 0 {
        lemma_text_less_asymmetric(a.skip(1), a.skip(1));
    }
}

proof fn lemma_sorted_keys_unique(
    a: Seq<Seq<char>>,
    b: Seq<Seq<char>>,
    m: Map<Seq<char>, Seq<char>>,
)
    requires
        lists_keys(a, m),
        lists_keys(b, m),
    ensures
        a == b,
    decreases a.len(),
{
    if a.len() == 0 {
        if b.len() > 0 {
            assert(b.contains(b[0]));
            assert(a.contains(b[0]));
        }
    } else {
        assert(a.contains(a[0]));
        assert(b.contains(a[0]));
        let j = choose|j: int| 0 <= j < b.len() && b[j] == a[0];
        assert(b.contains(b[0]));
        assert(a.contains(b[0]));
        let i = choose|i: int| 0 <= i < a.len() && a[i] == b[0];
        if i > 0 {
            assert(text_less(a[0], a[i]));
            if j > 0 {
                assert(text_less(b[0], b[j]));
            }
            lemma_text_less_asymmetric(a[0], b[0]);
        }
        assert(a[0] == b[0]);
        let rest = m.remove(a[0]);
        let a1 = a.skip(1);
        let b1 = b.skip(1);
        assert forall|k: Seq<char>| #[trigger] a1.contains(k) <==> rest.contains_key(k) by {
            lemma_tail_keys(a, m, k);
        }
        assert forall|k: Seq<char>| #[trigger] b1.contains(k) <==> rest.contains_key(k) by {
            lemma_tail_keys(b, m, k);
        }
        lemma_sorted_keys_unique(a1, b1, rest);
        assert(a == seq![a[0]] + a1);
        assert(b == seq![b[0]] + b1);
    }
}

proof fn lemma_tail_keys(a: Seq<Seq<char>>, m: Map<Seq<char>, Seq<char>>, k: Seq<char>)
    requires
        lists_keys(a, m),
        a.len() > 0,
    ensures
        a.skip(1).contains(k) <==> m.remove(a[0]).contains_key(k),
{
    let a1 = a.skip(1);
    if a1.contains(k) {
        let i = choose|i: int| 0 <= i < a1.len() && a1[i] == k;
        assert(a[i + 1] == k);
        assert(a.contains(k));
        assert(text_less(a[0], a[i + 1]));
        lemma_text_less_asymmetric(a[0], a[0]);
    }
    if m.remove(a[0]).contains_key(k) {
        assert(a.contains(k));
        let i = choose|i: int| 0 <= i < a.len() && a[i] == k;
        assert(a1[i - 1] == k);
    }
}

/// The text of an object is that of its members in ascending order of their
/// keys, whatever order they were put in.
pub proof fn law_object_text(keys: Seq<Seq<char>>, m: Map<Seq<char>, Seq<char>>)
    requires
        lists_keys(keys, m),
    ensures
        object_text(m) == seq!['{'] + members_text(keys, m) + seq!['}'],
{
    let chosen = choose|keys: Seq<Seq<char>>| lists_keys(keys, m);
    lemma_sorted_keys_unique(keys, chosen, m);
}

// ---------------------------------------------------------------------------
// The calls
// ---------------------------------------------------------------------------

/// What an object holds: the compact text of the value under each key.
pub uninterp spec fn members(o: serde_json::Map<String, serde_json::Value>) -> Map<
    Seq<char>,
    Seq<char>,
>;

/// What a value of any kind holds, as its compact text.
pub uninterp spec fn value_text(v: serde_json::Value) -> Seq<char>;

/// The compact text of the value that `serde_json::from_str` reads, if it
/// reads one.
pub uninterp spec fn json_value(text: Seq<char>) -> Option<Seq<char>>;

/// The indented text that `serde_json::to_string_pretty` writes for the value
/// with a compact text.
pub uninterp spec fn pretty_json(text: Seq<char>) -> Seq<char>;

/// The strings that `serde_json::from_str` reads from an array, if it reads
/// an array of strings.
pub uninterp spec fn string_list(text: Seq<char>) -> Option<Seq<Seq<char>>>;

/// A JSON value of any kind.
#[verifier::external_type_specification]
#[verifier::external_body]
pub struct ExValue(serde_json::Value);

/// A JSON object.
#[verifier::external_type_specification]
#[verifier::external_body]
#[verifier::reject_recursive_types(K)]
#[verifier::reject_recursive_types(V)]
pub struct ExObject<K, V>(serde_json::Map<K, V>);

/// The error of `serde_json`'s reader.
#[verifier::external_type_specification]
#[verifier::external_body]
pub struct ExJsonError(serde_json::Error);

/// A JSON object of any values.
pub type Object = serde_json::Map<String, serde_json::Value>;

/// A value to put into an object.
pub enum Field {
    Null,
    Count(u64),
    Text(String),
    Nested(Object),
}

impl Field {
    /// The compact text of the value.
    pub open spec fn text(self) -> Seq<char> {
        match self {
            Field::Null => "null"@,
            Field::Count(n) => decimal(n as nat),
            Field::Text(s) => json_quote(s@),
            Field::Nested(o) => object_text(members(o)),
        }
    }
}

/// What an object without members holds.
pub open spec fn no_members() -> Map<Seq<char>, Seq<char>> {
    Map::empty()
}

/// Calls `serde_json::Map::new`: an object without members.
#[verifier::external_body]
pub(crate) fn new_object() -> (r: Object)
    ensures
        members(r) == no_members(),
{
    serde_json::Map::new()
}

/// Calls `clone` on a `serde_json::Map`: an object with the same members.
#[verifier::external_body]
pub(crate) fn copy_object(o: &Object) -> (r: Object)
    ensures
        members(r) == members(*o),
{
    o.clone()
}

/// Calls `serde_json::Map::insert`: the value stands under the key from then
/// on, in place of one that stood there before.
#[verifier::external_body]
pub(crate) fn put(o: &mut Object, key: &str, value: Field)
    ensures
        members(*final(o)) == members(*old(o)).insert(key@, value.text()),
{
    let value = match value {
        Field::Null => serde_json::Value::Null,
        Field::Count(n) => serde_json::Value::from(n),
        Field::Text(s) => serde_json::Value::String(s),
        Field::Nested(o) => serde_json::Value::Object(o),
    };
    o.insert(key.to_owned(), value);
}

/// The string under a key, where one stands there.
pub open spec fn text_member(m: Map<Seq<char>, Seq<char>>, key: Seq<char>) -> Option<Seq<char>> {
    if m.contains_key(key) {
        json_text_of(m[key])
    } else {
        None
    }
}

/// Calls `serde_json::Map::get` and `serde_json::Value::as_str`: the string
/// under a key, or nothing where no value or another kind of value stands
/// there.
#[verifier::external_body]
pub(crate) fn get_text(o: &Object, key: &str) -> (r: Option<String>)
    ensures
        match r {
            Some(s) => text_member(members(*o), key@) == Some(s@),
            None => text_member(members(*o), key@) is None,
        },
{
    o.get(key).and_then(|v| v.as_str()).map(|s| s.to_owned())
}

/// Calls `to_string` on a `serde_json::Value` that is the object: its compact
/// text, which holds no line break.
#[verifier::external_body]
pub(crate) fn object_string(o: &Object) -> (r: String)
    ensures
        r@ == object_text(members(*o)),
        one_line(r@),
{
    serde_json::Value::Object(o.clone()).to_string()
}

/// Calls `serde_json::to_string` on a string.
#[verifier::external_body]
pub(crate) fn quote(s: &str) -> (r: String)
    ensures
        r@ == json_quote(s@),
{
    serde_json::to_string(s).unwrap()
}

/// Calls `serde_json::to_string` on a list of strings.
#[verifier::external_body]
pub(crate) fn list_string(parts: &Vec<String>) -> (r: String)
    ensures
        r@ == json_list(views(parts@)),
{
    serde_json::to_string(parts).unwrap()
}

/// Calls `serde_json::from_str` for a list of strings. What is read is named;
/// besides, the text of a list of strings is read back as that list.
#[verifier::external_body]
pub(crate) fn parse_list(text: &str) -> (r: Result<Vec<String>, serde_json::Error>)
    ensures
        match r {
            Ok(parts) => string_list(text@) == Some(views(parts@)),
            Err(_) => string_list(text@) is None,
        },
        forall|parts: Seq<Seq<char>>| text@ == #[trigger]
            json_list(parts) ==> r is Ok && views(r->Ok_0@) == parts,
{
    serde_json::from_str(text)
}

/// Calls `serde_json::from_str` for a value of any kind. What is read is named;
/// besides, the text of an object is read as that object where each member is
/// one that is given back as it was written, and the first key is not the one
/// that the reader keeps for raw text. Of numbers that are not integers
/// this is claimed only where they are so given back alone: the reader may
/// round them.
#[verifier::external_body]
pub(crate) fn parse_value(text: &str) -> (r: Result<serde_json::Value, serde_json::Error>)
    ensures
        match r {
            Ok(value) => json_value(text@) == Some(value_text(value)),
            Err(_) => json_value(text@) is None,
        },
        forall|m: Map<Seq<char>, Seq<char>>| readable_members(m) && text@ == #[trigger]
            object_text(m) ==> r is Ok && value_text(r->Ok_0) == text@,
{
    serde_json::from_str(text)
}

/// Calls `to_string` on a `serde_json::Value`: its compact text, which holds no
/// line break.
#[verifier::external_body]
pub(crate) fn value_string(v: &serde_json::Value) -> (r: String)
    ensures
        r@ == value_text(*v),
        one_line(r@),
{
    v.to_string()
}

/// Makes a `serde_json::Value` of an object.
#[verifier::external_body]
pub(crate) fn object_value(o: Object) -> (r: serde_json::Value)
    ensures
        value_text(r) == object_text(members(o)),
{
    serde_json::Value::Object(o)
}

/// Calls `clone` on a `serde_json::Value`: a value with the same text.
#[verifier::external_body]
pub(crate) fn copy_value(v: &serde_json::Value) -> (r: serde_json::Value)
    ensures
        value_text(r) == value_text(*v),
{
    v.clone()
}

/// Calls `serde_json::to_string_pretty` on a value. The text is named.
#[verifier::external_body]
pub(crate) fn pretty(v: &serde_json::Value) -> (r: String)
    ensures
        r@ == pretty_json(value_text(*v)),
{
    serde_json::to_string_pretty(v).unwrap_or_default()
}

} // verus!
