//! Decimal numerals, for file names and messages.

use vstd::prelude::*;
use vstd::string::StringExecFns;

verus! {

/// The character of a digit.
pub open spec fn digit_char(digit: nat) -> char {
    (48 + digit) as char
}

/// A number in decimal, without leading zeros.
pub open spec fn decimal_text(n: nat) -> Seq<char>
    decreases n,
{
    if n < 10 {
        seq![digit_char(n)]
    } else {
        decimal_text(n / 10).push(digit_char(n % 10))
    }
}

fn digit_str(digit: u128) -> (result: &'static str)
    requires
        digit < 10,
    ensures
        result@ == seq![digit_char(digit as nat)],
{
    proof {
        reveal_strlit("0");
        reveal_strlit("1");
        reveal_strlit("2");
        reveal_strlit("3");
        reveal_strlit("4");
        reveal_strlit("5");
        reveal_strlit("6");
        reveal_strlit("7");
        reveal_strlit("8");
        reveal_strlit("9");
    }
    if digit == 0 {
        "0"
    } else if digit == 1 {
        "1"
    } else if digit == 2 {
        "2"
    } else if digit == 3 {
        "3"
    } else if digit == 4 {
        "4"
    } else if digit == 5 {
        "5"
    } else if digit == 6 {
        "6"
    } else if digit == 7 {
        "7"
    } else if digit == 8 {
        "8"
    } else {
        "9"
    }
}

/// Writes a number in decimal.
pub fn decimal(n: u128) -> (result: String)
    ensures
        result@ == decimal_text(n as nat),
    decreases n,
{
    if n < 10 {
        String::from_str(digit_str(n))
    } else {
        let mut text: String = decimal(n / 10);
        text.append(digit_str(n % 10));
        assert(text@ =~= decimal_text(n as nat / 10).push(digit_char(n as nat % 10)));
        text
    }
}

/// Appends a number in decimal.
pub fn append_decimal(text: &mut String, n: u128)
    ensures
        final(text)@ == old(text)@ + decimal_text(n as nat),
{
    let numeral: String = decimal(n);
    text.append(numeral.as_str());
}

/// Different numbers have different numerals.
pub proof fn lemma_decimal_text_injective(m: nat, n: nat)
    requires
        decimal_text(m) == decimal_text(n),
    ensures
        m == n,
    decreases m,
{
    let (s, t) = (decimal_text(m), decimal_text(n));
    lemma_decimal_text_nonempty(m / 10);
    lemma_decimal_text_nonempty(n / 10);
    assert(s.last() == digit_char(m % 10));
    assert(t.last() == digit_char(n % 10));
    assert(m % 10 == n % 10);
    if m >= 10 || n >= 10 {
        assert(m >= 10 && n >= 10) by {
            if m < 10 {
                assert(s.len() == 1 && t.len() == decimal_text(n / 10).len() + 1);
            }
            if n < 10 {
                assert(t.len() == 1 && s.len() == decimal_text(m / 10).len() + 1);
            }
        }
        assert(s.drop_last() =~= decimal_text(m / 10));
        assert(t.drop_last() =~= decimal_text(n / 10));
        lemma_decimal_text_injective(m / 10, n / 10);
    }
}

/// Every numeral has a digit.
pub proof fn lemma_decimal_text_nonempty(n: nat)
    ensures
        decimal_text(n).len() >= 1,
{
}

/// A numeral is its digits: one digit for a number below ten, and otherwise the
/// numeral of the tenth part with the last digit behind it.
pub proof fn lemma_decimal_text_digits(n: nat)
    ensures
        n < 10 ==> decimal_text(n) == seq![(48 + n) as char],
        n >= 10 ==> decimal_text(n) == decimal_text(n / 10).push((48 + n % 10) as char),
{
}

} // verus!
