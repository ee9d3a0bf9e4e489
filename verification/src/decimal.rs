//! Decimal rendering of the report's numbers: plain base-10 integers and
//! dollar amounts written with exactly two decimal places.

use vstd::prelude::*;
use vstd::string::StringExecFns;

verus! {

/// The character of one decimal digit.
pub open spec fn digit_char(d: int) -> char
    recommends
        0 <= d < 10,
{
    if d == 0 {
        '0'
    } else if d == 1 {
        '1'
    } else if d == 2 {
        '2'
    } else if d == 3 {
        '3'
    } else if d == 4 {
        '4'
    } else if d == 5 {
        '5'
    } else if d == 6 {
        '6'
    } else if d == 7 {
        '7'
    } else if d == 8 {
        '8'
    } else {
        '9'
    }
}

/// The base-10 digits of a non-negative number, most significant first.
pub open spec fn dec_chars(n: int) -> Seq<char>
    recommends
        n >= 0,
    decreases n,
{
    if n < 10 {
        seq![digit_char(n)]
    } else {
        dec_chars(n / 10).push(digit_char(n % 10))
    }
}

/// A whole number of cents written as dollars with two decimal places:
/// the dollars in base 10, a point, then exactly two digits of cents.
pub open spec fn dollar_chars(cents: int) -> Seq<char>
    recommends
        cents >= 0,
{
    dec_chars(cents / 100) + seq!['.', digit_char((cents / 10) % 10), digit_char(cents % 10)]
}

/// The one-character text of a decimal digit.
fn digit_str(d: u128) -> (s: &'static str)
    requires
        d < 10,
    ensures
        s@ == seq![digit_char(d as int)],
{
    let s: &'static str = match d {
        0 => "0",
        1 => "1",
        2 => "2",
        3 => "3",
        4 => "4",
        5 => "5",
        6 => "6",
        7 => "7",
        8 => "8",
        _ => "9",
    };
    proof {
        reveal_strlit("0");
        reveal_strlit("1");
        reveal_strlit("2");
        reveal_strlit("3");
        reveal_strlit("4");
        reveal_strlit("5");
        reveal_strlit("6");
        reveal_strlit("7");
        reveal_strlit("8");
        reveal_strlit("9");
        assert(s@ =~= seq![digit_char(d as int)]);
    }
    s
}

/// The base-10 text of a number, matching `dec_chars` exactly.
pub fn decimal_string(n: u128) -> (s: String)
    ensures
        s@ == dec_chars(n as int),
    decreases n,
{
    if n < 10 {
        digit_str(n).to_owned()
    } else {
        let mut s = decimal_string(n / 10);
        s.append(digit_str(n % 10));
        proof {
            assert(s@ =~= dec_chars(n as int));
        }
        s
    }
}

/// A whole number of cents written as dollars with two decimal places,
/// matching `dollar_chars` exactly.
pub fn dollars_string(cents: u128) -> (s: String)
    ensures
        s@ == dollar_chars(cents as int),
{
    let mut s = decimal_string(cents / 100);
    s.append(".");
    s.append(digit_str((cents / 10) % 10));
    s.append(digit_str(cents % 10));
    proof {
        reveal_strlit(".");
        assert(s@ =~= dollar_chars(cents as int));
    }
    s
}

} // verus!
