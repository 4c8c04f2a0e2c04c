//! HTML text, and the calls into `html_escape`.
use crate::text::{expand, lemma_expand_injective, lemma_expand_within, prefix_free};
use vstd::prelude::*;

verus! {

/// How a character stands in HTML text.
pub open spec fn text_code(c: char) -> Seq<char> {
    if c == '&' {
        seq!['&', 'a', 'm', 'p', ';']
    } else if c == '<' {
        seq!['&', 'l', 't', ';']
    } else if c == '>' {
        seq!['&', 'g', 't', ';']
    } else {
        seq![c]
    }
}

/// How a character stands in a double-quoted attribute.
pub open spec fn attribute_code(c: char) -> Seq<char> {
    if c == '"' {
        seq!['&', 'q', 'u', 'o', 't', ';']
    } else {
        text_code(c)
    }
}

/// Text with `&`, `<` and `>` escaped.
pub open spec fn escaped_text(s: Seq<char>) -> Seq<char> {
    expand(s, |c: char| text_code(c))
}

/// Text with `&`, `<`, `>` and `"` escaped.
pub open spec fn escaped_attribute(s: Seq<char>) -> Seq<char> {
    expand(s, |c: char| attribute_code(c))
}

/// Calls `html_escape::encode_text`: `&`, `<` and `>` become entities, and
/// every other character stays.
#[verifier::external_body]
pub(crate) fn encode_text(s: &str) -> (r: String)
    ensures
        r@ == escaped_text(s@),
{
    html_escape::encode_text(s).into_owned()
}

/// Calls `html_escape::encode_double_quoted_attribute`: `&`, `<`, `>` and `"`
/// become entities, and every other character stays.
#[verifier::external_body]
pub(crate) fn encode_attribute(s: &str) -> (r: String)
    ensures
        r@ == escaped_attribute(s@),
{
    html_escape::encode_double_quoted_attribute(s).into_owned()
}

/// Escaped text opens and closes no tag.
pub proof fn law_escaped_text_has_no_markup(s: Seq<char>)
    ensures
        forall|i: int|
            0 <= i < escaped_text(s).len() ==> (#[trigger] escaped_text(s)[i]) != '<'
                && escaped_text(s)[i] != '>',
{
    let code = |c: char| text_code(c);
    let good = |c: char| c != '<' && c != '>';
    lemma_expand_within(s, code, good);
    assert forall|i: int| 0 <= i < escaped_text(s).len() implies (#[trigger] escaped_text(s)[i])
        != '<' && escaped_text(s)[i] != '>' by {
        assert(good(expand(s, code)[i]));
    }
}

/// Escaped attribute text opens and closes no tag and does not end the
/// attribute that it stands in.
pub proof fn law_escaped_attribute_stays_inside(s: Seq<char>)
    ensures
        forall|i: int|
            0 <= i < escaped_attribute(s).len() ==> (#[trigger] escaped_attribute(s)[i]) != '<'
                && escaped_attribute(s)[i] != '>' && escaped_attribute(s)[i] != '"',
{
    let code = |c: char| attribute_code(c);
    let good = |c: char| c != '<' && c != '>' && c != '"';
    lemma_expand_within(s, code, good);
    assert forall|i: int| 0 <= i < escaped_attribute(s).len() implies (#[trigger] escaped_attribute(
        s,
    )[i]) != '<' && escaped_attribute(s)[i] != '>' && escaped_attribute(s)[i] != '"' by {
        assert(good(expand(s, code)[i]));
    }
}

/// Escaping loses nothing: different texts are escaped differently.
pub proof fn law_escaping_is_injective(a: Seq<char>, b: Seq<char>)
    ensures
        escaped_text(a) == escaped_text(b) ==> a == b,
        escaped_attribute(a) == escaped_attribute(b) ==> a == b,
{
    let code = |c: char| text_code(c);
    assert forall|c: char, d: char| c != d implies !(#[trigger] code(c)).is_prefix_of(
        #[trigger] code(d),
    ) by {
        if code(c).is_prefix_of(code(d)) {
            assert(code(c)[0] == code(d)[0]);
            assert(code(c).len() > 1 ==> code(c)[1] == code(d)[1]);
        }
    }
    let attr = |c: char| attribute_code(c);
    assert forall|c: char, d: char| c != d implies !(#[trigger] attr(c)).is_prefix_of(
        #[trigger] attr(d),
    ) by {
        if attr(c).is_prefix_of(attr(d)) {
            assert(attr(c)[0] == attr(d)[0]);
            assert(attr(c).len() > 1 ==> attr(c)[1] == attr(d)[1]);
        }
    }
    if escaped_text(a) == escaped_text(b) {
        assert(prefix_free(code));
        lemma_expand_injective(a, b, code);
    }
    if escaped_attribute(a) == escaped_attribute(b) {
        assert(prefix_free(attr));
        lemma_expand_injective(a, b, attr);
    }
}

/// Escaping goes character by character: an ampersand, a bracket and, in an
/// attribute, a quotation mark become the entity that stands for them, and every
/// other character stays.
pub proof fn law_escapes_stand_for_their_characters(c: char, s: Seq<char>)
    ensures
        escaped_text(Seq::empty()) == Seq::<char>::empty(),
        escaped_attribute(Seq::empty()) == Seq::<char>::empty(),
        escaped_text(seq![c] + s) == (if c == '&' {
            "&amp;"@
        } else if c == '<' {
            "&lt;"@
        } else if c == '>' {
            "&gt;"@
        } else {
            seq![c]
        }) + escaped_text(s),
        escaped_attribute(seq![c] + s) == (if c == '&' {
            "&amp;"@
        } else if c == '<' {
            "&lt;"@
        } else if c == '>' {
            "&gt;"@
        } else if c == '"' {
            "&quot;"@
        } else {
            seq![c]
        }) + escaped_attribute(s),
{
    reveal_strlit("&amp;");
    reveal_strlit("&lt;");
    reveal_strlit("&gt;");
    reveal_strlit("&quot;");
    let all = seq![c] + s;
    assert(all.skip(1) =~= s);
    assert(all[0] == c);
    assert("&amp;"@ =~= seq!['&', 'a', 'm', 'p', ';']);
    assert("&lt;"@ =~= seq!['&', 'l', 't', ';']);
    assert("&gt;"@ =~= seq!['&', 'g', 't', ';']);
    assert("&quot;"@ =~= seq!['&', 'q', 'u', 'o', 't', ';']);
}

/// Text without an ampersand or a bracket stays as it is.
pub proof fn lemma_plain_text(s: Seq<char>)
    requires
        forall|i: int| 0 <= i < s.len() ==> #[trigger] s[i] != '&' && s[i] != '<' && s[i] != '>',
    ensures
        escaped_text(s) == s,
    decreases s.len(),
{
    if s.len() > 0 {
        let rest = s.skip(1);
        assert forall|i: int| 0 <= i < rest.len() implies #[trigger] rest[i] != '&' && rest[i]
            != '<' && rest[i] != '>' by {
            assert(rest[i] == s[i + 1]);
        }
        lemma_plain_text(rest);
        assert(s[0] != '&' && s[0] != '<' && s[0] != '>');
        law_escapes_stand_for_their_characters(s[0], rest);
        assert(seq![s[0]] + rest =~= s);
    } else {
        assert(escaped_text(s) =~= s);
    }
}

} // verus!
