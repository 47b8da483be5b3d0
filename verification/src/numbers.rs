//! Decimal numbers as text.

use vstd::prelude::*;
use vstd::string::*;

use crate::text::push_char;

verus! {

/// The character of a decimal digit.
pub open spec fn digit(value: nat) -> char {
    (48 + value) as char
}

/// A number in decimal, without leading zeros.
pub open spec fn decimal(value: nat) -> Seq<char>
    decreases value,
{
    if value < 10 {
        seq![digit(value)]
    } else {
        decimal(value / 10).push(digit(value % 10))
    }
}

/// The character of a decimal digit.
fn digit_char(value: u64) -> (c: char)
    requires
        value < 10,
    ensures
        c == digit(value as nat),
{
    if value == 0 {
        '0'
    } else if value == 1 {
        '1'
    } else if value == 2 {
        '2'
    } else if value == 3 {
        '3'
    } else if value == 4 {
        '4'
    } else if value == 5 {
        '5'
    } else if value == 6 {
        '6'
    } else if value == 7 {
        '7'
    } else if value == 8 {
        '8'
    } else {
        '9'
    }
}

/// A number in decimal, without leading zeros.
pub fn to_decimal(value: u64) -> (text: String)
    ensures
        text@ == decimal(value as nat),
    decreases value,
{
    if value < 10 {
        let mut text: String = "".to_owned();
        proof {
            reveal_strlit("");
        }
        push_char(&mut text, digit_char(value));
        assert(text@ =~= seq![digit(value as nat)]);
        text
    } else {
        let mut text: String = to_decimal(value / 10);
        push_char(&mut text, digit_char(value % 10));
        text
    }
}

/// Whether a character is a decimal digit.
pub open spec fn decimal_digit(c: char) -> bool {
    '0' <= c && c <= '9'
}

/// A number is written in digits.
pub proof fn decimals_are_digits(value: nat)
    ensures
        decimal(value).len() > 0,
        forall|i: int| 0 <= i < decimal(value).len() ==> decimal_digit(#[trigger] decimal(value)[i]),
    decreases value,
{
    if value >= 10 {
        decimals_are_digits(value / 10);
    }
}

/// Different numbers are written differently.
pub proof fn decimals_differ(a: nat, b: nat)
    requires
        decimal(a) == decimal(b),
    ensures
        a == b,
    decreases a,
{
    if a < 10 || b < 10 {
        if a >= 10 {
            decimals_are_digits(a / 10);
            assert(decimal(a).len() > 1);
        }
        if b >= 10 {
            decimals_are_digits(b / 10);
            assert(decimal(b).len() > 1);
        }
        assert(a < 10 && b < 10);
        assert(decimal(a)[0] == digit(a));
        assert(decimal(b)[0] == digit(b));
    } else {
        assert(decimal(a).drop_last() =~= decimal(a / 10));
        assert(decimal(b).drop_last() =~= decimal(b / 10));
        assert(decimal(a).last() == digit(a % 10));
        assert(decimal(b).last() == digit(b % 10));
        decimals_differ(a / 10, b / 10);
    }
}

/// A number and what follows it can be told apart where no digit follows.
pub proof fn decimals_stand_apart(a: nat, behind_a: Seq<char>, b: nat, behind_b: Seq<char>)
    requires
        decimal(a) + behind_a == decimal(b) + behind_b,
        behind_a.len() > 0,
        behind_b.len() > 0,
        !decimal_digit(behind_a[0]),
        !decimal_digit(behind_b[0]),
    ensures
        a == b,
        behind_a == behind_b,
{
    decimals_are_digits(a);
    decimals_are_digits(b);
    let text = decimal(a) + behind_a;
    let la = decimal(a).len() as int;
    let lb = decimal(b).len() as int;
    assert(text[la] == behind_a[0]);
    assert(text[lb] == behind_b[0]);
    if la < lb {
        assert(text[la] == decimal(b)[la]);
    } else if lb < la {
        assert(text[lb] == decimal(a)[lb]);
    }
    assert(text.take(la) =~= decimal(a));
    assert(text.take(lb) =~= decimal(b));
    decimals_differ(a, b);
    assert(text.skip(la) =~= behind_a);
    assert(text.skip(lb) =~= behind_b);
}

} // verus!
