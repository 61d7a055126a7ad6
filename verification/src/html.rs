use vstd::prelude::*;

verus! {

/// One character as it must be written inside Telegram's HTML style.
pub open spec fn escape_char(c: char) -> Seq<char> {
    if c == '&' {
        seq!['&', 'a', 'm', 'p', ';']
    } else if c == '<' {
        seq!['&', 'l', 't', ';']
    } else if c == '>' {
        seq!['&', 'g', 't', ';']
    } else {
        seq![c]
    }
}

/// The text with `&`, `<` and `>` written as entities and everything else
/// kept as it is.
pub open spec fn escaped(s: Seq<char>) -> Seq<char>
    decreases s.len(),
{
    if s.len() == 0 {
        Seq::empty()
    } else {
        escaped(s.drop_last()) + escape_char(s.last())
    }
}

/// The decimal digit for `d` below ten.
pub open spec fn digit(d: nat) -> char {
    seq!['0', '1', '2', '3', '4', '5', '6', '7', '8', '9'][d as int]
}

/// The decimal writing of a number, without leading zeros.
pub open spec fn decimal(n: nat) -> Seq<char>
    decreases n,
{
    if n < 10 {
        seq![digit(n)]
    } else {
        decimal(n / 10).push(digit(n % 10))
    }
}

/// A link that mentions the user with the given id, showing `text`.
pub open spec fn mention_link(user: u64, text: Seq<char>) -> Seq<char> {
    seq!['<', 'a', ' ', 'h', 'r', 'e', 'f', '=', '"', 't', 'g', ':', '/', '/', 'u', 's', 'e', 'r', '?', 'i', 'd', '=']
        + decimal(user as nat)
        + seq!['"', '>']
        + escaped(text)
        + seq!['<', '/', 'a', '>']
}

/// Calls teloxide's `utils::html::escape`. Its source folds the characters
/// into a new string, writing `&amp;`, `&lt;` and `&gt;` for `&`, `<` and `>`
/// and pushing every other character unchanged; the contract states exactly
/// that.
#[verifier::external_body]
pub(crate) fn escape(s: &str) -> (r: String)
    ensures
        r@ == escaped(s@),
{
    teloxide::utils::html::escape(s)
}

/// Calls teloxide's `utils::html::user_mention`. Its source formats
/// `tg://user?id={id}` (the id in decimal, through `UserId`'s derived
/// `Display`) and hands it with the text to `link`, which writes
/// `<a href="{escape(url)}">{escape(text)}</a>`; escaping leaves that url as
/// it is. The contract states the resulting text.
#[verifier::external_body]
pub(crate) fn user_mention(user: u64, text: &str) -> (r: String)
    ensures
        r@ == mention_link(user, text@),
{
    teloxide::utils::html::user_mention(teloxide::types::UserId(user), text)
}

/// The id Telegram knows a member by: a negative one reads as zero.
pub open spec fn telegram_id(user: i64) -> u64 {
    if user >= 0 { user as u64 } else { 0 }
}

/// A link that mentions the member, showing their name.
pub fn mention(user: i64, name: &str) -> (r: String)
    ensures
        r@ == mention_link(telegram_id(user), name@),
{
    let id: u64 = if user >= 0 { user as u64 } else { 0 };
    user_mention(id, name)
}

} // verus!
