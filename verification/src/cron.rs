use vstd::prelude::*;

use rand::rngs::StdRng;

use crate::chars::{chars_of, string_of};
use crate::clock::{rfc3339, rfc3339_of};
use crate::commands::corpus_of;
use crate::cuckold::{plausible, ACTIVE_SECONDS};
use crate::html::{escape, escaped, mention, mention_link, telegram_id};
use crate::layout::{join, joined, string_views};
use crate::markov::{every_walk_kept, joined_walk, split_whitespace, starts_of, words_of};
use crate::replies::answer_after_roll;
use crate::random::{random_between, random_index, random_ratio, random_up_to};
use crate::sources::{source_names, sources, MATTHEW_SOURCE};
use crate::store::{is_active, promotes_oldest, Part, Store, StoreError};
use crate::text::views;

verus! {

/// The hourly message is sent between one and three hours after the last.
pub const MIN_MINUTES: u64 = 60;
pub const MAX_MINUTES: u64 = 180;

/// The text with the mention put among its words at the given place (after
/// the last word when the place is past it), the words joined with spaces.
pub open spec fn spliced(text: Seq<char>, mention: Seq<char>, at: nat) -> Seq<char> {
    let words = words_of(text);
    let place = if at < words.len() { at } else { words.len() };
    joined(words.insert(place as int, mention), " "@)
}

/// Puts the mention among the words of the text at the given place.
pub fn splice(text: &str, mention: &str, at: usize) -> (r: String)
    ensures
        r@ == spliced(text@, mention@, at as nat),
{
    let mut words = split_whitespace(text);
    let place = if at < words.len() { at } else { words.len() };
    let ghost before = words@;
    words.insert(place, mention.to_string());
    proof {
        assert(string_views(words@) =~= views(before).insert(place as int, mention@));
    }
    join(&words, " ")
}

/// Returns how many minutes to wait before the next hourly message.
pub fn random_minutes_count(rng: &mut StdRng) -> (r: u64)
    ensures
        MIN_MINUTES <= r < MAX_MINUTES,
{
    random_between(rng, MIN_MINUTES, MAX_MINUTES)
}

/// Picks what the hourly cron says next: with the given chance in a
/// thousand a phrase generated out of every quote, otherwise (or when no
/// phrase came out) a quote of Matthew's with its id.
///
/// Returns nothing when no phrase was generated and Matthew has no quote.
pub fn pick(store: &Store, rng: &mut StdRng, generated_per_mille: u32) -> (r: Option<(String, Option<i64>)>)
    requires
        generated_per_mille <= 1000,
    ensures
        r matches Some((text, None)) ==> generated_per_mille > 0 && joined_walk(corpus_of(*store), text@),
        r matches Some((text, Some(id))) ==> exists|i: int| 0 <= i < store.quote_list().len()
            && #[trigger] store.quote_list()[i].0 == id
            && store.quote_list()[i].1 == MATTHEW_SOURCE@
            && store.quote_list()[i].2 == text@,
        r is None ==> !store.has_source(MATTHEW_SOURCE@),
        generated_per_mille == 0 ==> (r is Some <==> store.has_source(MATTHEW_SOURCE@)),
        generated_per_mille == 1000 && starts_of(corpus_of(*store)).len() > 0 && every_walk_kept(corpus_of(*store))
            ==> r matches Some((_, None)),
{
    let rolled = random_ratio(rng, generated_per_mille, 1000);
    answer_after_roll(store, MATTHEW_SOURCE, rng, rolled)
}

/// `r` is the escaped text with a mention of `user`, a member of the chat
/// seen in the thirty days before `now`, put at place `at` among its words.
pub open spec fn tags(s: Store, chat: i64, text: Seq<char>, now: i64, user: i64, at: nat, r: Seq<char>) -> bool {
    &&& is_active(s.member_map(), chat, user, rfc3339_of((now - ACTIVE_SECONDS) as i64))
    &&& at <= words_of(escaped(text)).len()
    &&& r == spliced(escaped(text), mention_link(telegram_id(user), s.member_map()[(chat, user)].1), at)
}

/// Escapes the hourly message and, with the given chance in a thousand,
/// tags a member of the chat seen in the last thirty days at a random place
/// among its words.
pub fn decorate(store: &Store, chat: i64, text: &str, now: i64, rng: &mut StdRng, tagged_per_mille: u32) -> (r: String)
    requires
        tagged_per_mille <= 1000,
        plausible(now as int),
    ensures
        r@ == escaped(text@) || exists|user: i64, at: nat| #[trigger] tags(*store, chat, text@, now, user, at, r@),
        tagged_per_mille == 0 ==> r@ == escaped(text@),
        tagged_per_mille == 1000 && (exists|user: i64| #[trigger] is_active(
            store.member_map(), chat, user, rfc3339_of((now - ACTIVE_SECONDS) as i64)))
            ==> exists|user: i64, at: nat| #[trigger] tags(*store, chat, text@, now, user, at, r@),
{
    let escaped_text = escape(text);
    if !random_ratio(rng, tagged_per_mille, 1000) {
        return escaped_text;
    }
    let since = match rfc3339(now - ACTIVE_SECONDS) {
        Some(at) => at,
        None => String::new(),
    };
    let members = store.active_members(chat, since.as_str());
    if members.len() == 0 {
        proof {
            if tagged_per_mille == 1000 {
                assert(since@ == rfc3339_of((now - ACTIVE_SECONDS) as i64));
                assert forall|user: i64| !#[trigger] is_active(store.member_map(), chat, user, rfc3339_of((now - ACTIVE_SECONDS) as i64)) by {
                    if is_active(store.member_map(), chat, user, since@) {
                        let i = choose|i: int| 0 <= i < members@.len() && #[trigger] members@[i].user == user;
                    }
                }
            }
        }
        return escaped_text;
    }
    let w = random_index(rng, members.len());
    let tag = mention(members[w].user, members[w].name.as_str());
    let words = split_whitespace(escaped_text.as_str()).len();
    let at = random_up_to(rng, words);
    let r = splice(escaped_text.as_str(), tag.as_str(), at);
    proof {
        assert(is_active(store.member_map(), chat, members@[w as int].user, since@));
        assert(tags(*store, chat, text@, now, members@[w as int].user, at as nat, r@));
    }
    r
}

/// The shortest and the longest burst of hourly messages to one chat.
pub const BURST_MIN: u32 = 1;
pub const BURST_MAX: u32 = 4;

/// How many messages the hourly cron sends to one chat in a row: the pinned
/// length when one is pinned, otherwise one to four at random.
pub fn burst_length_from(pinned: u32, rng: &mut StdRng) -> (r: u32)
    ensures
        pinned > 0 ==> r == pinned,
        pinned == 0 ==> BURST_MIN <= r <= BURST_MAX,
{
    if pinned > 0 {
        return pinned;
    }
    let extra = random_up_to(rng, (BURST_MAX - BURST_MIN) as usize);
    BURST_MIN + extra as u32
}

/// What the hourly cron does next in a burst to one chat.
#[derive(Debug, Clone, Copy, PartialEq, Eq, Structural)]
pub enum BurstStep {
    /// Sends the next message, after the pause between two messages when
    /// one was sent already.
    Send { pause: bool },
    /// The burst is over.
    Stop,
}

/// Decides the next step of a burst of `length` messages after `sent`
/// attempts: it stops once the burst is complete or the last message failed.
pub fn burst_step(sent: u32, length: u32, last_failed: bool) -> (r: BurstStep)
    ensures
        r == (if last_failed || sent >= length { BurstStep::Stop } else { BurstStep::Send { pause: sent > 0 } }),
{
    if last_failed || sent >= length {
        BurstStep::Stop
    } else {
        BurstStep::Send { pause: sent > 0 }
    }
}

/// Picks one of the sources of quotes at random.
pub fn random_source(rng: &mut StdRng) -> (r: &'static str)
    ensures
        source_names().contains(r@),
{
    let all = sources();
    assert(all@.map_values(|s: &str| s@).len() == source_names().len());
    let at = random_index(rng, all.len());
    assert(all@.map_values(|s: &str| s@)[at as int] == all@[at as int]@);
    all[at]
}

/// Moves the message Matthew wrote first into the quotes of a source picked
/// at random, and returns the source with what the store answered.
pub fn promote_one_message(store: &mut Store, rng: &mut StdRng) -> (r: (&'static str, Result<Option<String>, StoreError>))
    ensures
        source_names().contains(r.0@),
        promotes_oldest(*old(store), *final(store), r.0@, r.1),
        final(store).same_except(*old(store), set![Part::Quotes, Part::Waiting]),
{
    let source = random_source(rng);
    let outcome = store.promote_oldest_matthew_message(source);
    (source, outcome)
}

} // verus!
