use vstd::prelude::*;

verus! {

/// The decimal digit character for `d < 10`.
pub open spec fn digit_char(d: nat) -> char {
    (d + 48) as char
}

/// The decimal digits of `n`, most significant first, without leading zeros.
pub open spec fn digits(n: nat) -> Seq<char>
    decreases n,
{
    if n < 10 {
        seq![digit_char(n)]
    } else {
        digits(n / 10).push(digit_char(n % 10))
    }
}

/// How an integer is written: a minus sign for negative values, then its
/// decimal digits.
pub open spec fn int_text(i: int) -> Seq<char> {
    if i < 0 {
        seq!['-'] + digits((-i) as nat)
    } else {
        digits(i as nat)
    }
}

pub open spec fn is_digit(c: char) -> bool {
    '0' <= c <= '9'
}

pub open spec fn all_digits(s: Seq<char>) -> bool {
    forall|k: int| 0 <= k < s.len() ==> is_digit(#[trigger] s[k])
}

pub open spec fn digit_value(c: char) -> nat {
    (c as int - 48) as nat
}

/// The number that a string of decimal digits denotes.
pub open spec fn digits_value(s: Seq<char>) -> nat
    decreases s.len(),
{
    if s.len() == 0 {
        0
    } else {
        digits_value(s.drop_last()) * 10 + digit_value(s.last())
    }
}

/// The integer a text denotes: an optional `+` or `-`, then at least one
/// decimal digit and nothing else, with a value inside the range of `i64`.
pub open spec fn int_of_text(s: Seq<char>) -> Option<i64> {
    let signed = s.len() > 0 && (s[0] == '-' || s[0] == '+');
    let negative = s.len() > 0 && s[0] == '-';
    let body = if signed {
        s.drop_first()
    } else {
        s
    };
    let magnitude = digits_value(body) as int;
    let v = if negative {
        -magnitude
    } else {
        magnitude
    };
    if body.len() == 0 || !all_digits(body) || v < i64::MIN || v > i64::MAX {
        None
    } else {
        Some(v as i64)
    }
}

/// Relies on `ToString` for `i64` (its `Display`): a minus sign for negative
/// values, then the decimal digits without leading zeros.
#[verifier::external_body]
pub(crate) fn integer_text(i: i64) -> (r: String)
    ensures
        r@ == int_text(i as int),
{
    i.to_string()
}

/// Relies on `str::parse::<i64>`: an optional sign and then only decimal
/// digits, with a value that fits; anything else is an error.
#[verifier::external_body]
pub(crate) fn parse_integer(s: &str) -> (r: Option<i64>)
    ensures
        r == int_of_text(s@),
{
    s.parse::<i64>().ok()
}

proof fn lemma_digit_char(d: nat)
    requires
        d < 10,
    ensures
        is_digit(digit_char(d)),
        digit_value(digit_char(d)) == d,
{
    assert((d + 48) as char as int == d + 48);
}

proof fn lemma_digits(n: nat)
    ensures
        digits(n).len() > 0,
        all_digits(digits(n)),
        digits_value(digits(n)) == n,
    decreases n,
{
    lemma_digit_char((n % 10) as nat);
    if n < 10 {
        lemma_digit_char(n);
        assert(digits(n).drop_last() =~= Seq::<char>::empty());
        assert(digits_value(digits(n)) == digits_value(Seq::<char>::empty()) * 10 + digit_value(
            digit_char(n),
        ));
    } else {
        lemma_digits(n / 10);
        assert(n == (n / 10) * 10 + n % 10) by (nonlinear_arith);
        let s = digits(n);
        assert(s.drop_last() =~= digits(n / 10));
        assert(s.last() == digit_char((n % 10) as nat));
        assert(digits_value(s) == digits_value(digits(n / 10)) * 10 + digit_value(s.last()));
        assert forall|k: int| 0 <= k < s.len() implies is_digit(#[trigger] s[k]) by {
            if k < s.len() - 1 {
                assert(s[k] == digits(n / 10)[k]);
            }
        }
    }
}

/// Writing an integer and reading it back gives the same integer.
pub proof fn lemma_int_text_round_trip(i: i64)
    ensures
        int_of_text(int_text(i as int)) == Some(i),
{
    if i < 0 {
        let n = (-(i as int)) as nat;
        lemma_digits(n);
        let s = int_text(i as int);
        assert(s.drop_first() =~= digits(n));
        assert(s[0] == '-');
    } else {
        lemma_digits(i as nat);
        let s = digits(i as nat);
        assert(is_digit(s[0]));
    }
}

} // verus!
