use vstd::prelude::*;

use crate::chars::string_of;
use crate::html::{decimal, digit};

verus! {

/// The decimal writing of an integer, with a minus sign when it is negative.
pub open spec fn signed_decimal(n: int) -> Seq<char> {
    if n < 0 {
        seq!['-'] + decimal((-n) as nat)
    } else {
        decimal(n as nat)
    }
}

fn digit_char(d: u64) -> (r: char)
    requires
        d < 10,
    ensures
        r == digit(d as nat),
{
    match d {
        0 => '0',
        1 => '1',
        2 => '2',
        3 => '3',
        4 => '4',
        5 => '5',
        6 => '6',
        7 => '7',
        8 => '8',
        _ => '9',
    }
}

/// Returns the decimal digits of the number.
pub fn decimal_chars(n: u64) -> (r: Vec<char>)
    ensures
        r@ == decimal(n as nat),
    decreases n,
{
    if n < 10 {
        vec![digit_char(n)]
    } else {
        let mut v = decimal_chars(n / 10);
        v.push(digit_char(n % 10));
        v
    }
}

/// Returns the number written in decimal, as `format!("{}")` writes it.
pub fn number_text(n: i64) -> (r: String)
    ensures
        r@ == signed_decimal(n as int),
{
    if n < 0 {
        let magnitude: u64 = (0i128 - n as i128) as u64;
        let digits = decimal_chars(magnitude);
        let mut v: Vec<char> = vec!['-'];
        let mut i: usize = 0;
        while i < digits.len()
            invariant
                i <= digits.len(),
                v@ == seq!['-'] + digits@.take(i as int),
            decreases digits.len() - i,
        {
            v.push(digits[i]);
            i = i + 1;
            assert(v@ =~= seq!['-'] + digits@.take(i as int));
        }
        assert(digits@.take(i as int) =~= digits@);
        string_of(&v)
    } else {
        let digits = decimal_chars(n as u64);
        string_of(&digits)
    }
}

/// Returns the count written in decimal.
pub fn count_text(n: usize) -> (r: String)
    ensures
        r@ == decimal(n as nat),
{
    let digits = decimal_chars(n as u64);
    string_of(&digits)
}

} // verus!
