//! Characters and text: the character classes that the lexer relies on, decimal
//! numerals, and appending to a `String`.
use vstd::prelude::*;

verus! {

/// Whether a character has the Unicode `Alphabetic` property.
pub uninterp spec fn alphabetic(c: char) -> bool;

/// Whether a character is in one of Unicode's numeric general categories.
pub uninterp spec fn numeric(c: char) -> bool;

/// Whether a character has the Unicode `White_Space` property.
pub uninterp spec fn whitespace(c: char) -> bool;

/// Relies on `char::is_alphabetic`, which reports the `Alphabetic` property.
#[verifier::external_body]
pub(crate) fn is_alphabetic(c: char) -> (r: bool)
    ensures
        r == alphabetic(c),
{
    c.is_alphabetic()
}

/// Relies on `char::is_numeric`, which reports the numeric general categories.
#[verifier::external_body]
pub(crate) fn is_numeric(c: char) -> (r: bool)
    ensures
        r == numeric(c),
{
    c.is_numeric()
}

/// Relies on `char::is_alphanumeric`, documented as true exactly when
/// `is_alphabetic` or `is_numeric` is.
#[verifier::external_body]
pub(crate) fn is_alphanumeric(c: char) -> (r: bool)
    ensures
        r == (alphabetic(c) || numeric(c)),
{
    c.is_alphanumeric()
}

/// Relies on `char::is_whitespace`, which reports the `White_Space` property.
#[verifier::external_body]
pub(crate) fn is_whitespace(c: char) -> (r: bool)
    ensures
        r == whitespace(c),
{
    c.is_whitespace()
}

/// The `Debug` form of a string: between double quotes, with the escapes of
/// `char::escape_debug`.
pub uninterp spec fn quoted(s: Seq<char>) -> Seq<char>;

/// Relies on `<str as Debug>::fmt`, through `format!`: the quoted, escaped text.
#[verifier::external_body]
fn debug_quoted(s: &str) -> (r: String)
    ensures
        r@ == quoted(s@),
{
    format!("{:?}", s)
}

/// Appends the `Debug` form of a string.
pub(crate) fn push_quoted(out: &mut String, s: &str)
    ensures
        final(out)@ == old(out)@ + quoted(s@),
{
    let q = debug_quoted(s);
    push_text(out, q.as_str());
}

/// Relies on `String::push`: the character is appended at the end.
#[verifier::external_body]
pub(crate) fn push_char(s: &mut String, c: char)
    ensures
        final(s)@ == old(s)@.push(c),
{
    s.push(c)
}

/// Appends a string slice at the end of a `String`.
pub(crate) fn push_text(s: &mut String, t: &str)
    ensures
        final(s)@ == old(s)@ + t@,
{
    s.append(t);
}

pub open spec fn is_ascii_digit(c: char) -> bool {
    '0' <= c && c <= '9'
}

pub open spec fn digit_value(c: char) -> int {
    c as int - '0' as int
}

/// The value of a run of decimal digits, most significant first.
pub open spec fn digits_value(d: Seq<char>) -> int
    decreases d.len(),
{
    if d.len() == 0 {
        0
    } else {
        10 * digits_value(d.drop_last()) + digit_value(d.last())
    }
}

/// The digit character for a value below ten.
pub open spec fn digit_char(d: int) -> char {
    ('0' as int + d) as char
}

/// The decimal numeral of a natural number, without leading zeros.
pub open spec fn nat_text(n: nat) -> Seq<char>
    decreases n,
{
    if n < 10 {
        seq![digit_char(n as int)]
    } else {
        nat_text(n / 10).push(digit_char((n % 10) as int))
    }
}

/// The decimal numeral of an integer, with a leading `-` when negative.
pub open spec fn int_text(v: int) -> Seq<char> {
    if v < 0 {
        seq!['-'] + nat_text((-v) as nat)
    } else {
        nat_text(v as nat)
    }
}

/// Reads a run of characters as a decimal `i64`: `None` unless every character
/// is an ASCII digit and the value fits.
pub fn parse_digits(d: &Vec<char>) -> (r: Option<i64>)
    ensures
        r is Some <==> (forall|i: int| 0 <= i < d@.len() ==> is_ascii_digit(#[trigger] d@[i]))
            && digits_value(d@) <= i64::MAX,
        r matches Some(v) ==> v == digits_value(d@),
{
    let mut v: i64 = 0;
    let mut i: usize = 0;
    while i < d.len()
        invariant
            0 <= i <= d@.len(),
            forall|j: int| 0 <= j < i ==> is_ascii_digit(#[trigger] d@[j]),
            v == digits_value(d@.subrange(0, i as int)),
            0 <= v,
        decreases d.len() - i,
    {
        let c = d[i];
        assert(d@.subrange(0, i + 1).drop_last() == d@.subrange(0, i as int));
        if !('0' <= c && c <= '9') {
            proof {
                lemma_non_digit_rules_out(d@, i as int);
            }
            return None;
        }
        let dig = (c as u32 - '0' as u32) as i64;
        // 922337203685477580 is i64::MAX / 10, and i64::MAX ends in 7.
        if v > 922337203685477580 || (v == 922337203685477580 && dig > 7) {
            proof {
                assert(10 * v + dig > i64::MAX) by (nonlinear_arith)
                    requires
                        v > 922337203685477580 || (v == 922337203685477580 && dig > 7),
                        0 <= dig,
                ;
                lemma_digits_monotone(d@, i as int + 1);
            }
            return None;
        }
        assert(10 * v + dig <= i64::MAX) by (nonlinear_arith)
            requires
                v <= 922337203685477580,
                v < 922337203685477580 || dig <= 7,
                0 <= dig <= 9,
        ;
        v = 10 * v + dig;
        i = i + 1;
    }
    assert(d@.subrange(0, d@.len() as int) == d@);
    Some(v)
}

/// A non-digit in the run rules the value out whatever the prefix was.
proof fn lemma_non_digit_rules_out(d: Seq<char>, i: int)
    requires
        0 <= i < d.len(),
        !is_ascii_digit(d[i]),
    ensures
        !(forall|j: int| 0 <= j < d.len() ==> is_ascii_digit(#[trigger] d[j])),
{
}

/// Over digits, the value of a run is at least the value of each of its prefixes.
proof fn lemma_digits_monotone(d: Seq<char>, k: int)
    requires
        0 <= k <= d.len(),
        forall|j: int| 0 <= j < k ==> is_ascii_digit(#[trigger] d[j]),
    ensures
        (forall|j: int| 0 <= j < d.len() ==> is_ascii_digit(#[trigger] d[j])) ==> digits_value(
            d.subrange(0, k),
        ) <= digits_value(d),
    decreases d.len() - k,
{
    if k < d.len() && (forall|j: int| 0 <= j < d.len() ==> is_ascii_digit(#[trigger] d[j])) {
        lemma_digits_monotone(d, k + 1);
        assert(d.subrange(0, k + 1).drop_last() == d.subrange(0, k));
        lemma_digits_value_nonneg(d.subrange(0, k));
    }
    if k == d.len() {
        assert(d.subrange(0, k) == d);
    }
}

proof fn lemma_digits_value_nonneg(d: Seq<char>)
    requires
        forall|j: int| 0 <= j < d.len() ==> is_ascii_digit(#[trigger] d[j]),
    ensures
        digits_value(d) >= 0,
    decreases d.len(),
{
    if d.len() > 0 {
        lemma_digits_value_nonneg(d.drop_last());
    }
}

/// The character of a decimal digit.
fn digit_to_char(d: u64) -> (c: char)
    requires
        d < 10,
    ensures
        c == digit_char(d as int),
{
    match d {
        0 => '0',
        1 => '1',
        2 => '2',
        3 => '3',
        4 => '4',
        5 => '5',
        6 => '6',
        7 => '7',
        8 => '8',
        _ => '9',
    }
}

/// Appends the decimal numeral of a natural number.
pub(crate) fn push_nat(s: &mut String, n: u64)
    ensures
        final(s)@ == old(s)@ + nat_text(n as nat),
    decreases n,
{
    if n >= 10 {
        push_nat(s, n / 10);
    }
    push_char(s, digit_to_char(n % 10));
    proof {
        if n < 10 {
            assert(old(s)@.push(digit_char(n as int)) == old(s)@ + seq![digit_char(n as int)]);
        } else {
            assert((old(s)@ + nat_text((n / 10) as nat)).push(digit_char((n % 10) as int))
                == old(s)@ + nat_text((n / 10) as nat).push(digit_char((n % 10) as int)));
        }
    }
}

/// Appends the decimal numeral of a count.
pub(crate) fn push_count(s: &mut String, n: usize)
    ensures
        final(s)@ == old(s)@ + nat_text(n as nat),
    decreases n,
{
    if n >= 10 {
        push_count(s, n / 10);
    }
    push_char(s, digit_to_char((n % 10) as u64));
    proof {
        if n < 10 {
            assert(old(s)@.push(digit_char(n as int)) == old(s)@ + seq![digit_char(n as int)]);
        } else {
            assert((old(s)@ + nat_text((n / 10) as nat)).push(digit_char((n % 10) as int))
                == old(s)@ + nat_text((n / 10) as nat).push(digit_char((n % 10) as int)));
        }
    }
}

/// Appends the decimal numeral of an integer.
pub(crate) fn push_int(s: &mut String, v: i64)
    ensures
        final(s)@ == old(s)@ + int_text(v as int),
{
    if v < 0 {
        push_char(s, '-');
        let m: u64 = (0i128 - v as i128) as u64;
        push_nat(s, m);
        assert(old(s)@.push('-') + nat_text(m as nat) == old(s)@ + (seq!['-'] + nat_text(
            m as nat,
        )));
    } else {
        push_nat(s, v as u64);
    }
}

} // verus!
