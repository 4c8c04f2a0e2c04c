//! Message and session identifiers, and the calls into `uuid`.
//!
//! An identifier is the 128-bit number that a UUID stands for.
use vstd::arithmetic::div_mod::{lemma_basic_div, lemma_div_denominator, lemma_fundamental_div_mod};
use vstd::arithmetic::power::{lemma_pow0, lemma_pow1, lemma_pow_adds, lemma_pow_positive, pow};
use vstd::prelude::*;

verus! {

/// The hexadecimal digit, in lower case, of a number below sixteen.
pub open spec fn hex_digit(d: int) -> char {
    if d < 10 {
        crate::text::digit(d)
    } else if d == 10 {
        'a'
    } else if d == 11 {
        'b'
    } else if d == 12 {
        'c'
    } else if d == 13 {
        'd'
    } else if d == 14 {
        'e'
    } else {
        'f'
    }
}

/// Different digits are written differently.
pub proof fn lemma_hex_digit_injective(x: int, y: int)
    requires
        0 <= x < 16,
        0 <= y < 16,
    ensures
        hex_digit(x) == hex_digit(y) ==> x == y,
{
}

/// The thirty-two hexadecimal digits of an identifier, most significant first.
pub open spec fn hex_digits(id: u128) -> Seq<char> {
    Seq::new(
        32,
        |i: int| hex_digit((id as int / pow(16, (31 - i) as nat)) % 16),
    )
}

/// The hyphenated text of an identifier: thirty-two hexadecimal digits in
/// groups of 8, 4, 4, 4 and 12.
pub open spec fn id_text(id: u128) -> Seq<char> {
    let h = hex_digits(id);
    h.subrange(0, 8) + seq!['-'] + h.subrange(8, 12) + seq!['-'] + h.subrange(12, 16) + seq!['-']
        + h.subrange(16, 20) + seq!['-'] + h.subrange(20, 32)
}

proof fn lemma_same_quotient(a: int, b: int, k: nat)
    requires
        0 <= a,
        0 <= b,
        a / pow(16, k + 1) == b / pow(16, k + 1),
        (a / pow(16, k)) % 16 == (b / pow(16, k)) % 16,
    ensures
        a / pow(16, k) == b / pow(16, k),
{
    lemma_pow_positive(16, k);
    let p = pow(16, k);
    assert(pow(16, k + 1) == p * 16) by {
        lemma_pow_adds(16, k, 1);
        lemma_pow1(16);
    }
    lemma_div_denominator(a, p, 16);
    lemma_div_denominator(b, p, 16);
    lemma_fundamental_div_mod(a / p, 16);
    lemma_fundamental_div_mod(b / p, 16);
}

proof fn lemma_square(k: nat, p: int)
    requires
        pow(16, k) == p,
    ensures
        pow(16, 2 * k) == p * p,
{
    lemma_pow_adds(16, k, k);
}

proof fn lemma_same_digits(a: u128, b: u128, k: nat)
    requires
        hex_digits(a) == hex_digits(b),
        k <= 32,
    ensures
        a as int / pow(16, k) == b as int / pow(16, k),
    decreases 32 - k,
{
    if k == 32 {
        assert(pow(16, 32) == 0x1_0000_0000_0000_0000_0000_0000_0000_0000int) by {
            lemma_pow1(16);
            lemma_square(1, 16);
            lemma_square(2, 0x100);
            lemma_square(4, 0x1_0000);
            lemma_square(8, 0x1_0000_0000);
            lemma_square(16, 0x1_0000_0000_0000_0000);
        }
        lemma_basic_div(a as int, pow(16, 32));
        lemma_basic_div(b as int, pow(16, 32));
    } else {
        lemma_same_digits(a, b, k + 1);
        let i = 31 - k;
        assert((31 - i) as nat == k);
        assert(hex_digits(a)[i] == hex_digits(b)[i]);
        let x = (a as int / pow(16, k)) % 16;
        let y = (b as int / pow(16, k)) % 16;
        assert(hex_digits(a)[i] == hex_digit(x));
        assert(hex_digits(b)[i] == hex_digit(y));
        lemma_hex_digit_injective(x, y);
        lemma_same_quotient(a as int, b as int, k);
    }
}

/// Different identifiers have different texts.
pub proof fn law_id_texts_differ(a: u128, b: u128)
    requires
        id_text(a) == id_text(b),
    ensures
        a == b,
{
    let x = id_text(a);
    let y = id_text(b);
    let h = hex_digits(a);
    let g = hex_digits(b);
    assert forall|i: int| 0 <= i < 32 implies #[trigger] h[i] == g[i] by {
        let k = if i < 8 {
            i
        } else if i < 12 {
            i + 1
        } else if i < 16 {
            i + 2
        } else if i < 20 {
            i + 3
        } else {
            i + 4
        };
        assert(x[k] == h[i]);
        assert(y[k] == g[i]);
    }
    assert(h =~= g);
    lemma_same_digits(a, b, 0);
    lemma_pow0(16);
}

/// Whether an identifier carries the marks of a version 7 UUID.
pub open spec fn is_v7(id: u128) -> bool {
    (id >> 76) & 0xf == 7 && (id >> 62) & 0x3 == 2
}

/// The identifier that `Uuid::parse_str` reads, if it reads one.
pub uninterp spec fn parsed_id(text: Seq<char>) -> Option<u128>;

/// The error of `Uuid::parse_str`.
#[verifier::external_type_specification]
#[verifier::external_body]
pub struct ExUuidError(uuid::Error);

/// Calls `Uuid::now_v7`. The identifier differs from call to call; it carries
/// the version and the variant of a version 7 UUID.
#[verifier::external_body]
pub(crate) fn new_id() -> (r: u128)
    ensures
        is_v7(r),
{
    uuid::Uuid::now_v7().as_u128()
}

/// Calls `to_string` on a `Uuid`: the hyphenated text, in lower case.
#[verifier::external_body]
pub(crate) fn id_string(id: u128) -> (r: String)
    ensures
        r@ == id_text(id),
{
    uuid::Uuid::from_u128(id).to_string()
}

/// Calls `Uuid::parse_str`. What is read is named; besides, the hyphenated text
/// of an identifier is read back as that identifier.
#[verifier::external_body]
pub(crate) fn parse_id(text: &str) -> (r: Result<u128, uuid::Error>)
    ensures
        match r {
            Ok(id) => parsed_id(text@) == Some(id),
            Err(_) => parsed_id(text@) is None,
        },
        forall|id: u128| text@ == #[trigger] id_text(id) ==> r is Ok && r->Ok_0 == id,
{
    Ok(uuid::Uuid::parse_str(text)?.as_u128())
}

} // verus!
