use vstd::prelude::*;

use crate::chars::{chars_of, extend, extend_str, string_of};
use crate::digits::{count_text, signed_decimal};
use crate::html::decimal;

verus! {

/// The lines joined with the separator between each two of them.
pub open spec fn joined(lines: Seq<Seq<char>>, sep: Seq<char>) -> Seq<char>
    decreases lines.len(),
{
    if lines.len() == 0 {
        Seq::empty()
    } else if lines.len() == 1 {
        lines[0]
    } else {
        joined(lines.drop_last(), sep) + sep + lines.last()
    }
}

pub open spec fn string_views(v: Seq<String>) -> Seq<Seq<char>> {
    v.map_values(|s: String| s@)
}

/// Returns the lines joined with the separator between each two of them.
pub fn join(lines: &Vec<String>, sep: &str) -> (r: String)
    ensures
        r@ == joined(string_views(lines@), sep@),
{
    let mut v: Vec<char> = Vec::new();
    let mut i: usize = 0;
    while i < lines.len()
        invariant
            i <= lines@.len(),
            v@ == joined(string_views(lines@.take(i as int)), sep@),
        decreases lines@.len() - i,
    {
        let ghost before = v@;
        if i > 0 {
            extend_str(&mut v, sep);
        }
        extend_str(&mut v, lines[i].as_str());
        proof {
            let now = string_views(lines@.take(i + 1));
            assert(now.drop_last() =~= string_views(lines@.take(i as int)));
            assert(now.last() == lines@[i as int]@);
            if i == 0 {
                assert(now.len() == 1);
                assert(v@ =~= now[0]);
            } else {
                assert(v@ =~= before + sep@ + lines@[i as int]@);
            }
        }
        i = i + 1;
    }
    assert(lines@.take(i as int) =~= lines@);
    string_of(&v)
}

/// The medals of the first three places.
pub open spec fn medals() -> Seq<Seq<char>> {
    seq!["🥇"@, "🥈"@, "🥉"@]
}

/// How a place of a ranking is shown: a medal for the first three, the
/// number and a dot after them.
pub open spec fn rank_label(place: nat) -> Seq<char> {
    if place < 3 {
        medals()[place as int]
    } else {
        decimal(place + 1) + "."@
    }
}

/// Returns how the place (counted from zero) is shown.
pub fn rank_label_of(place: usize) -> (r: String)
    requires
        place < usize::MAX,
    ensures
        r@ == rank_label(place as nat),
{
    if place == 0 {
        "🥇".to_string()
    } else if place == 1 {
        "🥈".to_string()
    } else if place == 2 {
        "🥉".to_string()
    } else {
        let number = count_text(place + 1);
        let mut v = chars_of(number.as_str());
        extend_str(&mut v, ".");
        string_of(&v)
    }
}

} // verus!
