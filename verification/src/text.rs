//! Characters, splitting, trimming and decimal text.
use vstd::prelude::*;
use vstd::string::StringExecFns;

verus! {

/// `String::push` appends one character.
pub assume_specification[ String::push ](s: &mut String, c: char)
    ensures
        final(s)@ == old(s)@.push(c),
;

/// The Unicode `White_Space` property.
pub open spec fn is_space(c: char) -> bool {
    ||| '\u{9}' <= c <= '\u{d}'
    ||| c == ' '
    ||| c == '\u{85}'
    ||| c == '\u{a0}'
    ||| c == '\u{1680}'
    ||| '\u{2000}' <= c <= '\u{200a}'
    ||| c == '\u{2028}'
    ||| c == '\u{2029}'
    ||| c == '\u{202f}'
    ||| c == '\u{205f}'
    ||| c == '\u{3000}'
}

/// Whether a character is white space.
pub fn space(c: char) -> (r: bool)
    ensures
        r == is_space(c),
{
    ('\u{9}' <= c && c <= '\u{d}') || c == ' ' || c == '\u{85}' || c == '\u{a0}' || c
        == '\u{1680}' || ('\u{2000}' <= c && c <= '\u{200a}') || c == '\u{2028}' || c
        == '\u{2029}' || c == '\u{202f}' || c == '\u{205f}' || c == '\u{3000}'
}

/// The characters of a string, in order.
pub fn chars_of(s: &str) -> (r: Vec<char>)
    ensures
        r@ == s@,
{
    let mut r: Vec<char> = Vec::new();
    for c in it: s.chars()
        invariant
            r@ == it.seq().take(it.index()),
            it.seq() == s@,
    {
        r.push(c);
    }
    r
}

/// Whether two strings hold the same characters.
pub fn same(a: &str, b: &str) -> (r: bool)
    ensures
        r == (a@ == b@),
{
    a.to_owned() == b.to_owned()
}

/// The string made of the characters from `from` up to, not including, `to`.
pub fn string_of(cs: &Vec<char>, from: usize, to: usize) -> (r: String)
    requires
        from <= to <= cs@.len(),
    ensures
        r@ == cs@.subrange(from as int, to as int),
{
    let mut r = String::new();
    let mut i: usize = from;
    while i < to
        invariant
            from <= i <= to <= cs@.len(),
            r@ == cs@.subrange(from as int, i as int),
        decreases to - i,
    {
        r.push(cs[i]);
        i += 1;
    }
    r
}

// ---------------------------------------------------------------------------
// Splitting
// ---------------------------------------------------------------------------

/// The index of the first `sep`, or the length where there is none.
pub open spec fn first_index(s: Seq<char>, sep: char) -> int
    decreases s.len(),
{
    if s.len() == 0 || s[0] == sep {
        0
    } else {
        1 + first_index(s.skip(1), sep)
    }
}

/// The parts between separators. There is one part more than separators.
pub open spec fn split(s: Seq<char>, sep: char) -> Seq<Seq<char>>
    decreases s.len(),
    via split_decreases
{
    let i = first_index(s, sep);
    if i < s.len() {
        seq![s.take(i)] + split(s.skip(i + 1), sep)
    } else {
        seq![s]
    }
}

#[via_fn]
proof fn split_decreases(s: Seq<char>, sep: char) {
    lemma_first_index(s, sep);
}

/// What stands before and after the first `sep`.
pub open spec fn split_once(s: Seq<char>, sep: char) -> Option<(Seq<char>, Seq<char>)> {
    let i = first_index(s, sep);
    if i < s.len() {
        Some((s.take(i), s.skip(i + 1)))
    } else {
        None
    }
}

/// `first_index` is in range, lands on a separator, and passes over none.
pub proof fn lemma_first_index(s: Seq<char>, sep: char)
    ensures
        0 <= first_index(s, sep) <= s.len(),
        first_index(s, sep) < s.len() ==> s[first_index(s, sep)] == sep,
        forall|j: int| 0 <= j < first_index(s, sep) ==> s[j] != sep,
    decreases s.len(),
{
    if s.len() > 0 && s[0] != sep {
        lemma_first_index(s.skip(1), sep);
        assert forall|j: int| 0 <= j < first_index(s, sep) implies s[j] != sep by {
            if j > 0 {
                assert(s[j] == s.skip(1)[j - 1]);
            }
        }
    }
}

/// The first separator is the index that is one and has none before it.
pub proof fn lemma_first_index_is(s: Seq<char>, sep: char, i: int)
    requires
        0 <= i <= s.len(),
        i < s.len() ==> s[i] == sep,
        forall|j: int| 0 <= j < i ==> s[j] != sep,
    ensures
        first_index(s, sep) == i,
{
    lemma_first_index(s, sep);
}

/// Finds the first separator.
pub fn find(cs: &Vec<char>, sep: char) -> (r: Option<usize>)
    ensures
        match r {
            Some(i) => i == first_index(cs@, sep) && i < cs@.len(),
            None => first_index(cs@, sep) == cs@.len(),
        },
{
    let mut i: usize = 0;
    while i < cs.len()
        invariant
            i <= cs@.len(),
            forall|j: int| 0 <= j < i ==> cs@[j] != sep,
        decreases cs@.len() - i,
    {
        if cs[i] == sep {
            proof {
                lemma_first_index_is(cs@, sep, i as int);
            }
            return Some(i);
        }
        i += 1;
    }
    proof {
        lemma_first_index_is(cs@, sep, i as int);
    }
    None
}

/// The views of a list of strings.
pub open spec fn views(v: Seq<String>) -> Seq<Seq<char>> {
    v.map_values(|s: String| s@)
}

/// The view of an optional string.
pub open spec fn opt_view(o: Option<String>) -> Option<Seq<char>> {
    match o {
        Some(s) => Some(s@),
        None => None,
    }
}

/// The text of an optional string, or a stand-in.
pub open spec fn view_or(o: Option<String>, default: Seq<char>) -> Seq<char> {
    match o {
        Some(s) => s@,
        None => default,
    }
}

/// The text of an optional string, or a stand-in.
pub fn str_or<'a>(o: &'a Option<String>, default: &'a str) -> (r: &'a str)
    ensures
        r@ == view_or(*o, default@),
{
    match o {
        Some(s) => s.as_str(),
        None => default,
    }
}

/// Splits on every `sep`, as `str::split` does.
pub fn split_on(s: &str, sep: char) -> (r: Vec<String>)
    ensures
        views(r@) == split(s@, sep),
{
    let cs = chars_of(s);
    let mut r: Vec<String> = Vec::new();
    let mut start: usize = 0;
    let mut i: usize = 0;
    proof {
        assert(cs@.skip(0) == cs@);
        assert(views(r@) + split(cs@, sep) == split(cs@, sep));
    }
    while i < cs.len()
        invariant
            start <= i <= cs@.len(),
            forall|j: int| start <= j < i ==> cs@[j] != sep,
            views(r@) + split(cs@.skip(start as int), sep) == split(cs@, sep),
        decreases cs@.len() - i,
    {
        if cs[i] == sep {
            let ghost rest = cs@.skip(start as int);
            let ghost before = r@;
            let part = string_of(&cs, start, i);
            proof {
                lemma_first_index_is(rest, sep, i - start);
                assert(rest.take(i - start) == cs@.subrange(start as int, i as int));
                assert(rest.skip(i - start + 1) == cs@.skip(i + 1));
                assert(views(before.push(part)) == views(before).push(part@));
                assert(views(before.push(part)) + split(cs@.skip(i + 1), sep) == views(before)
                    + split(rest, sep));
            }
            r.push(part);
            start = i + 1;
        }
        i += 1;
    }
    let ghost before = r@;
    let part = string_of(&cs, start, i);
    proof {
        let rest = cs@.skip(start as int);
        lemma_first_index_is(rest, sep, rest.len() as int);
        assert(part@ == rest);
        assert(views(before.push(part)) == views(before) + seq![rest]);
    }
    r.push(part);
    r
}

// ---------------------------------------------------------------------------
// Trimming
// ---------------------------------------------------------------------------

/// The text without leading white space.
pub open spec fn trim_start(s: Seq<char>) -> Seq<char>
    decreases s.len(),
{
    if s.len() > 0 && is_space(s[0]) {
        trim_start(s.skip(1))
    } else {
        s
    }
}

/// The text without trailing white space.
pub open spec fn trim_end(s: Seq<char>) -> Seq<char>
    decreases s.len(),
{
    if s.len() > 0 && is_space(s.last()) {
        trim_end(s.drop_last())
    } else {
        s
    }
}

/// The text without white space around it.
pub open spec fn trim(s: Seq<char>) -> Seq<char> {
    trim_end(trim_start(s))
}

/// Trimmed text neither starts nor ends with white space.
pub proof fn lemma_trimmed(s: Seq<char>)
    ensures
        trim(s).len() > 0 ==> !is_space(trim(s)[0]) && !is_space(trim(s).last()),
        trim(s).len() <= s.len(),
{
    lemma_trim_start(s);
    lemma_trim_end(trim_start(s));
}

proof fn lemma_trim_start(s: Seq<char>)
    ensures
        trim_start(s).len() <= s.len(),
        trim_start(s).len() > 0 ==> !is_space(trim_start(s)[0]),
    decreases s.len(),
{
    if s.len() > 0 && is_space(s[0]) {
        lemma_trim_start(s.skip(1));
    }
}

proof fn lemma_trim_end(s: Seq<char>)
    ensures
        trim_end(s).len() <= s.len(),
        trim_end(s).len() > 0 ==> !is_space(trim_end(s).last()) && trim_end(s)[0] == s[0],
    decreases s.len(),
{
    if s.len() > 0 && is_space(s.last()) {
        lemma_trim_end(s.drop_last());
    }
}

/// Trims white space on both sides, as `str::trim` does.
pub fn trim_str(s: &str) -> (r: String)
    ensures
        r@ == trim(s@),
{
    let cs = chars_of(s);
    let mut a: usize = 0;
    proof {
        assert(cs@.skip(0) == cs@);
    }
    while a < cs.len() && space(cs[a])
        invariant
            a <= cs@.len(),
            trim_start(cs@.skip(a as int)) == trim_start(cs@),
        decreases cs@.len() - a,
    {
        proof {
            assert(cs@.skip(a as int).skip(1) == cs@.skip(a + 1));
        }
        a += 1;
    }
    let mut b: usize = cs.len();
    let ghost body = cs@.skip(a as int);
    proof {
        assert(body == trim_start(cs@));
        assert(cs@.subrange(a as int, b as int) == body);
    }
    while a < b && space(cs[b - 1])
        invariant
            a <= b <= cs@.len(),
            trim_end(cs@.subrange(a as int, b as int)) == trim_end(body),
        decreases b,
    {
        proof {
            assert(cs@.subrange(a as int, b as int).drop_last() == cs@.subrange(
                a as int,
                b - 1,
            ));
        }
        b -= 1;
    }
    string_of(&cs, a, b)
}

/// Splits at the first `sep`, as `str::split_once` does.
pub fn split_once_str(s: &str, sep: char) -> (r: Option<(String, String)>)
    ensures
        match r {
            Some(p) => split_once(s@, sep) == Some((p.0@, p.1@)),
            None => split_once(s@, sep) is None,
        },
{
    let cs = chars_of(s);
    let n = cs.len();
    match find(&cs, sep) {
        Some(i) => {
            let before = string_of(&cs, 0, i);
            let after = string_of(&cs, i + 1, n);
            proof {
                assert(before@ == cs@.take(i as int));
                assert(after@ == cs@.skip(i + 1));
            }
            Some((before, after))
        },
        None => None,
    }
}

// ---------------------------------------------------------------------------
// Joining
// ---------------------------------------------------------------------------

/// The parts with `sep` between each two.
pub open spec fn join(parts: Seq<Seq<char>>, sep: Seq<char>) -> Seq<char>
    decreases parts.len(),
{
    if parts.len() == 0 {
        Seq::empty()
    } else if parts.len() == 1 {
        parts[0]
    } else {
        join(parts.drop_last(), sep) + sep + parts.last()
    }
}

/// Joins strings, as `[String]::join` does.
pub fn join_strings(parts: &Vec<String>, sep: &str) -> (r: String)
    ensures
        r@ == join(views(parts@), sep@),
{
    let mut r = String::new();
    let mut i: usize = 0;
    while i < parts.len()
        invariant
            i <= parts@.len(),
            r@ == join(views(parts@).take(i as int), sep@),
        decreases parts@.len() - i,
    {
        if i > 0 {
            r.append(sep);
        }
        r.append(parts[i].as_str());
        proof {
            let next = views(parts@).take(i + 1);
            assert(next.drop_last() == views(parts@).take(i as int));
            assert(next.last() == parts@[i as int]@);
        }
        i += 1;
    }
    proof {
        assert(views(parts@).take(i as int) == views(parts@));
    }
    r
}

// ---------------------------------------------------------------------------
// Expanding
// ---------------------------------------------------------------------------

/// The text in which each element is replaced by what `code` gives for it.
pub open spec fn expand<A>(s: Seq<A>, code: spec_fn(A) -> Seq<char>) -> Seq<char>
    decreases s.len(),
{
    if s.len() == 0 {
        Seq::empty()
    } else {
        code(s[0]) + expand(s.skip(1), code)
    }
}

/// Codes of which none is the start of another, and none is empty.
pub open spec fn prefix_free<A>(code: spec_fn(A) -> Seq<char>) -> bool {
    &&& forall|c: A| (#[trigger] code(c)).len() > 0
    &&& forall|c: A, d: A|
        c != d ==> !(#[trigger] code(c)).is_prefix_of(#[trigger] code(d))
}

/// Under a prefix-free code, the expanded text determines the text.
pub proof fn lemma_expand_injective<A>(
    a: Seq<A>,
    b: Seq<A>,
    code: spec_fn(A) -> Seq<char>,
)
    requires
        prefix_free(code),
        expand(a, code) == expand(b, code),
    ensures
        a == b,
    decreases a.len(),
{
    let x = expand(a, code);
    if a.len() > 0 && b.len() > 0 {
        let ca = code(a[0]);
        let cb = code(b[0]);
        assert(ca == x.take(ca.len() as int));
        assert(cb == x.take(cb.len() as int));
        if a[0] != b[0] {
            if ca.len() <= cb.len() {
                assert(ca.is_prefix_of(cb));
            } else {
                assert(cb.is_prefix_of(ca));
            }
        }
        assert(expand(a.skip(1), code) == x.skip(ca.len() as int));
        assert(expand(b.skip(1), code) == x.skip(cb.len() as int));
        lemma_expand_injective(a.skip(1), b.skip(1), code);
        assert(a == seq![a[0]] + a.skip(1));
        assert(b == seq![b[0]] + b.skip(1));
    } else if a.len() == 0 && b.len() > 0 {
        assert(code(b[0]).len() > 0);
        assert(x.len() == 0);
    } else if b.len() == 0 && a.len() > 0 {
        assert(code(a[0]).len() > 0);
        assert(x.len() == 0);
    }
}

/// Every character of an expanded text stands in some element's code.
pub proof fn lemma_expand_within<A>(
    s: Seq<A>,
    code: spec_fn(A) -> Seq<char>,
    good: spec_fn(char) -> bool,
)
    requires
        forall|c: A, i: int| 0 <= i < code(c).len() ==> good(#[trigger] code(c)[i]),
    ensures
        forall|i: int| 0 <= i < expand(s, code).len() ==> good(#[trigger] expand(s, code)[i]),
    decreases s.len(),
{
    if s.len() > 0 {
        lemma_expand_within(s.skip(1), code, good);
        let head = code(s[0]);
        let tail = expand(s.skip(1), code);
        assert forall|i: int| 0 <= i < expand(s, code).len() implies good(
            #[trigger] expand(s, code)[i],
        ) by {
            if i < head.len() {
                assert(expand(s, code)[i] == head[i]);
            } else {
                assert(expand(s, code)[i] == tail[i - head.len()]);
            }
        }
    }
}

// ---------------------------------------------------------------------------
// Numbers
// ---------------------------------------------------------------------------

/// The decimal digit of a number below ten.
pub open spec fn digit(d: int) -> char {
    if d == 0 {
        '0'
    } else if d == 1 {
        '1'
    } else if d == 2 {
        '2'
    } else if d == 3 {
        '3'
    } else if d == 4 {
        '4'
    } else if d == 5 {
        '5'
    } else if d == 6 {
        '6'
    } else if d == 7 {
        '7'
    } else if d == 8 {
        '8'
    } else {
        '9'
    }
}

/// The decimal digits of a natural number, most significant first.
pub open spec fn decimal(n: nat) -> Seq<char>
    decreases n,
{
    if n < 10 {
        seq![digit(n as int)]
    } else {
        decimal(n / 10).push(digit((n % 10) as int))
    }
}

/// The decimal text of an integer, with a minus sign where it is negative.
pub open spec fn decimal_int(n: int) -> Seq<char> {
    if n < 0 {
        seq!['-'] + decimal((-n) as nat)
    } else {
        decimal(n as nat)
    }
}

fn digit_char(d: u64) -> (c: char)
    requires
        d < 10,
    ensures
        c == digit(d as int),
{
    match d {
        0 => '0',
        1 => '1',
        2 => '2',
        3 => '3',
        4 => '4',
        5 => '5',
        6 => '6',
        7 => '7',
        8 => '8',
        _ => '9',
    }
}

/// Writes an unsigned number in decimal.
pub fn u64_text(n: u64) -> (r: String)
    ensures
        r@ == decimal(n as nat),
    decreases n,
{
    if n < 10 {
        let mut r = String::new();
        r.push(digit_char(n));
        proof {
            assert(r@ == seq![digit(n as int)]);
        }
        r
    } else {
        let mut r = u64_text(n / 10);
        r.push(digit_char(n % 10));
        r
    }
}

/// Writes a signed number in decimal.
pub fn i64_text(n: i64) -> (r: String)
    ensures
        r@ == decimal_int(n as int),
{
    if n < 0 {
        let magnitude: u64 = (-(n + 1)) as u64 + 1;
        let mut r = String::new();
        r.push('-');
        let digits = u64_text(magnitude);
        r.append(digits.as_str());
        proof {
            assert(r@ == seq!['-'] + decimal((-n) as nat));
        }
        r
    } else {
        u64_text(n as u64)
    }
}

// ---------------------------------------------------------------------------
// Laws
// ---------------------------------------------------------------------------

/// Whether a character does not occur in a text.
pub open spec fn lacks(s: Seq<char>, c: char) -> bool {
    forall|i: int| 0 <= i < s.len() ==> #[trigger] s[i] != c
}

/// Text before a separator is split off from what follows it, whatever either
/// holds.
pub proof fn law_split_at_a_separator(a: Seq<char>, b: Seq<char>, sep: char)
    ensures
        split(a + seq![sep] + b, sep) == split(a, sep) + split(b, sep),
        lacks(a, sep) ==> split(a, sep) == seq![a],
        lacks(a, sep) ==> split(a + seq![sep] + b, sep) == seq![a] + split(b, sep),
        lacks(b, sep) ==> split(a + seq![sep] + b, sep) == split(a, sep).push(b),
    decreases a.len(),
{
    let s = a + seq![sep] + b;
    lemma_first_index(a, sep);
    lemma_first_index(b, sep);
    let i = first_index(a, sep);
    if i < a.len() {
        lemma_first_index_is(s, sep, i);
        let rest = a.skip(i + 1);
        assert(s.take(i) =~= a.take(i));
        assert(s.skip(i + 1) =~= rest + seq![sep] + b);
        law_split_at_a_separator(rest, b, sep);
        assert(split(s, sep) =~= split(a, sep) + split(b, sep));
    } else {
        lemma_first_index_is(s, sep, a.len() as int);
        assert(s.take(a.len() as int) =~= a);
        assert(s.skip(a.len() as int + 1) =~= b);
    }
    if lacks(b, sep) {
        assert(split(a, sep) + seq![b] =~= split(a, sep).push(b));
    }
}

/// What stands before the first separator, and what after it, make the text
/// again; without a separator there is nothing to part.
pub proof fn law_parted_at_the_first_separator(s: Seq<char>, sep: char)
    ensures
        match split_once(s, sep) {
            Some(p) => s == p.0 + seq![sep] + p.1 && lacks(p.0, sep),
            None => lacks(s, sep),
        },
{
    lemma_first_index(s, sep);
    if let Some(p) = split_once(s, sep) {
        assert(s =~= p.0 + seq![sep] + p.1);
    }
}

/// A text is parted at the separator that follows a part without one.
pub proof fn law_parts_are_found(a: Seq<char>, b: Seq<char>, sep: char)
    requires
        lacks(a, sep),
    ensures
        split_once(a + seq![sep] + b, sep) == Some((a, b)),
{
    let s = a + seq![sep] + b;
    lemma_first_index_is(s, sep, a.len() as int);
    assert(s.take(a.len() as int) =~= a);
    assert(s.skip(a.len() as int + 1) =~= b);
}

/// Joined parts are split again into what they were, where none holds the
/// separator.
pub proof fn law_joined_parts_are_split_again(parts: Seq<Seq<char>>, sep: char)
    requires
        parts.len() > 0,
        forall|i: int| 0 <= i < parts.len() ==> lacks(#[trigger] parts[i], sep),
    ensures
        split(join(parts, seq![sep]), sep) == parts,
    decreases parts.len(),
{
    if parts.len() == 1 {
        lemma_first_index(parts[0], sep);
        assert(split(parts[0], sep) =~= parts);
    } else {
        let head = parts.drop_last();
        law_joined_parts_are_split_again(head, sep);
        law_split_at_a_separator(join(head, seq![sep]), parts.last(), sep);
        assert(lacks(parts[parts.len() - 1], sep));
        assert(head.push(parts.last()) =~= parts);
    }
}

/// Whether a text has no white space at either end.
pub open spec fn is_trimmed(s: Seq<char>) -> bool {
    s.len() > 0 ==> !is_space(s[0]) && !is_space(s.last())
}

/// Whether a text is nothing but white space.
pub open spec fn is_blank(s: Seq<char>) -> bool {
    forall|i: int| 0 <= i < s.len() ==> is_space(#[trigger] s[i])
}

/// Trimming takes the white space away from both ends, and nothing else.
pub proof fn law_trim_takes_the_ends(before: Seq<char>, s: Seq<char>, after: Seq<char>)
    requires
        is_blank(before),
        is_trimmed(s),
        is_blank(after),
    ensures
        trim(before + s + after) == s,
{
    lemma_trim_start_blank(before, s + after);
    assert(before + (s + after) =~= before + s + after);
    if s.len() > 0 {
        assert((s + after)[0] == s[0]);
        lemma_trim_end_blank(s, after);
    } else {
        assert(s + after =~= after);
        lemma_trim_start_blank(after, Seq::empty());
        assert(after + Seq::<char>::empty() =~= after);
        assert(s =~= Seq::empty());
    }
}

proof fn lemma_trim_start_blank(before: Seq<char>, s: Seq<char>)
    requires
        is_blank(before),
    ensures
        trim_start(before + s) == trim_start(s),
    decreases before.len(),
{
    if before.len() > 0 {
        let all = before + s;
        let rest = before.skip(1);
        assert(all[0] == before[0]);
        assert(all.skip(1) =~= rest + s);
        assert forall|i: int| 0 <= i < rest.len() implies is_space(#[trigger] rest[i]) by {
            assert(rest[i] == before[i + 1]);
        }
        lemma_trim_start_blank(rest, s);
    } else {
        assert(before + s =~= s);
    }
}

proof fn lemma_trim_end_blank(s: Seq<char>, after: Seq<char>)
    requires
        is_blank(after),
        s.len() > 0,
        !is_space(s.last()),
    ensures
        trim_end(s + after) == s,
    decreases after.len(),
{
    if after.len() > 0 {
        let all = s + after;
        let rest = after.drop_last();
        assert(all.last() == after[after.len() - 1]);
        assert(all.drop_last() =~= s + rest);
        lemma_trim_end_blank(s, rest);
    } else {
        assert(s + after =~= s);
    }
}

/// A text consists of what trimming leaves and of white space around it.
pub proof fn law_trim_leaves_the_rest(s: Seq<char>)
    ensures
        is_trimmed(trim(s)),
        exists|before: Seq<char>, after: Seq<char>|
            #![trigger is_blank(before), is_blank(after)]
            is_blank(before) && is_blank(after) && s == before + trim(s) + after,
{
    lemma_trimmed(s);
    let t = trim_start(s);
    lemma_trim_start_is_suffix(s);
    lemma_trim_end_is_prefix(t);
    let before = s.take(s.len() - t.len());
    let after = t.skip(trim(s).len() as int);
    assert(s =~= before + trim(s) + after);
    assert(is_blank(before) && is_blank(after));
}

proof fn lemma_trim_start_is_suffix(s: Seq<char>)
    ensures
        trim_start(s).len() <= s.len(),
        trim_start(s) == s.skip(s.len() - trim_start(s).len()),
        is_blank(s.take(s.len() - trim_start(s).len())),
    decreases s.len(),
{
    if s.len() > 0 && is_space(s[0]) {
        let rest = s.skip(1);
        lemma_trim_start_is_suffix(rest);
        let n = s.len() - trim_start(s).len();
        assert(s.skip(n) =~= rest.skip(n - 1));
        assert forall|i: int| 0 <= i < n implies is_space(#[trigger] s.take(n)[i]) by {
            if i > 0 {
                assert(s.take(n)[i] == rest.take(n - 1)[i - 1]);
            }
        }
    } else {
        assert(s.skip(0) =~= s);
    }
}

proof fn lemma_trim_end_is_prefix(s: Seq<char>)
    ensures
        trim_end(s).len() <= s.len(),
        trim_end(s) == s.take(trim_end(s).len() as int),
        is_blank(s.skip(trim_end(s).len() as int)),
    decreases s.len(),
{
    if s.len() > 0 && is_space(s.last()) {
        let rest = s.drop_last();
        lemma_trim_end_is_prefix(rest);
        let n = trim_end(s).len() as int;
        assert(s.take(n) =~= rest.take(n));
        assert forall|i: int| 0 <= i < s.len() - n implies is_space(#[trigger] s.skip(n)[i]) by {
            if n + i < rest.len() {
                assert(s.skip(n)[i] == rest.skip(n)[i]);
            }
        }
    } else {
        assert(s.take(s.len() as int) =~= s);
    }
}

/// Whether a text holds another in one piece.
pub open spec fn shows(s: Seq<char>, piece: Seq<char>) -> bool {
    exists|i: int|
        0 <= i && i + piece.len() <= s.len() && #[trigger] s.subrange(i, i + piece.len()) == piece
}

proof fn lemma_shows_at(s: Seq<char>, piece: Seq<char>, i: int)
    requires
        0 <= i,
        i + piece.len() <= s.len(),
        s.subrange(i, i + piece.len()) == piece,
    ensures
        shows(s, piece),
{
}

/// A text holds itself, and what its parts hold; and it holds neighbouring parts
/// as one piece.
pub proof fn lemma_shows()
    ensures
        forall|p: Seq<char>| #[trigger] shows(p, p),
        forall|a: Seq<char>, b: Seq<char>, p: Seq<char>|
            shows(a, p) || shows(b, p) ==> #[trigger] shows(a + b, p),
        forall|a: Seq<char>, b: Seq<char>, c: Seq<char>| #[trigger] shows(a + b + c, b + c),
{
    assert forall|p: Seq<char>| #[trigger] shows(p, p) by {
        assert(p.subrange(0, p.len() as int) =~= p);
        lemma_shows_at(p, p, 0);
    }
    assert forall|a: Seq<char>, b: Seq<char>, p: Seq<char>|
        shows(a, p) || shows(b, p) implies #[trigger] shows(a + b, p) by {
        if shows(a, p) {
            let i = choose|i: int|
                0 <= i && i + p.len() <= a.len() && #[trigger] a.subrange(i, i + p.len()) == p;
            assert((a + b).subrange(i, i + p.len()) =~= a.subrange(i, i + p.len()));
            lemma_shows_at(a + b, p, i);
        } else {
            let i = choose|i: int|
                0 <= i && i + p.len() <= b.len() && #[trigger] b.subrange(i, i + p.len()) == p;
            let j = a.len() + i;
            assert((a + b).subrange(j, j + p.len()) =~= b.subrange(i, i + p.len()));
            lemma_shows_at(a + b, p, j);
        }
    }
    assert forall|a: Seq<char>, b: Seq<char>, c: Seq<char>| #[trigger] shows(a + b + c, b + c) by {
        let s = a + b + c;
        let p = b + c;
        let i = a.len() as int;
        assert(s.subrange(i, i + p.len()) =~= p);
        lemma_shows_at(s, p, i);
    }
}

/// Joined parts show each of them.
pub proof fn lemma_join_shows(parts: Seq<Seq<char>>, sep: Seq<char>, i: int)
    requires
        0 <= i < parts.len(),
    ensures
        shows(join(parts, sep), parts[i]),
    decreases parts.len(),
{
    lemma_shows();
    if parts.len() > 1 {
        if i < parts.len() - 1 {
            lemma_join_shows(parts.drop_last(), sep, i);
        }
    }
}

/// White space is what Unicode says it is: these twenty-five code points.
pub proof fn law_white_space(c: char)
    ensures
        is_space(c) <==> {
            let n = c as int;
            ||| 9 <= n <= 13
            ||| n == 32
            ||| n == 133
            ||| n == 160
            ||| n == 5_760
            ||| 8_192 <= n <= 8_202
            ||| n == 8_232
            ||| n == 8_233
            ||| n == 8_239
            ||| n == 8_287
            ||| n == 12_288
        },
{
}

/// A negative number is written as its magnitude after a minus sign, any other as
/// its digits alone.
pub proof fn law_signs_are_written(n: nat)
    ensures
        decimal_int(n as int) == decimal(n),
        n > 0 ==> decimal_int(-(n as int)) == "-"@ + decimal(n),
{
    reveal_strlit("-");
    assert("-"@ =~= seq!['-']);
}

/// Joined, parts stand one after another, with the separator between two.
pub proof fn law_join_puts_separators_between(parts: Seq<Seq<char>>, p: Seq<char>, sep: Seq<char>)
    ensures
        join(Seq::empty(), sep) == Seq::<char>::empty(),
        join(seq![p], sep) == p,
        parts.len() > 0 ==> join(parts.push(p), sep) == join(parts, sep) + sep + p,
{
    assert(parts.push(p).drop_last() =~= parts);
}

} // verus!
