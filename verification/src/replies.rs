use vstd::prelude::*;

use rand::rngs::StdRng;

use crate::chars::{chars_of, contains_chars, contains_seq, lowercase, to_lowercase};
use crate::random::{random_index, random_ratio};
use crate::sources::{MATTHEW_KEYWORD, STREAM_KEYWORD, VINOGRAD_KEYWORD};
use crate::store::{after_remember, Part, Store};
use crate::update::{cast_id, Incoming};
use crate::commands::corpus_of;
use crate::markov::{every_walk_kept, generate, joined_walk, starts_of};
use crate::text::views;

verus! {

/// The reaction the bot puts on a message that names Matthew.
pub const MATTHEW_REACTION: &'static str = "💔";
/// The reaction the bot puts on a message that names the stream.
pub const STREAM_REACTION: &'static str = "🤡";
/// The reaction the bot puts on a message that names Vinogradov.
pub const VINOGRAD_REACTION: &'static str = "💩";

/// The message has text, and the keyword occurs in it written in lower case.
pub open spec fn mentions_keyword(text: Option<Seq<char>>, keyword: Seq<char>) -> bool {
    match text {
        Some(t) => contains_seq(lowercase(t), keyword),
        None => false,
    }
}

pub open spec fn text_view(m: Incoming) -> Option<Seq<char>> {
    match m.text {
        Some(t) => Some(t@),
        None => None,
    }
}

/// Tells whether the text, in lower case, holds the keyword.
pub fn contains_ignore_case(text: Option<&str>, keyword: &str) -> (r: bool)
    ensures
        r == match text {
            Some(t) => contains_seq(lowercase(t@), keyword@),
            None => false,
        },
{
    match text {
        Some(t) => {
            let lowered = to_lowercase(t);
            let haystack = chars_of(lowered.as_str());
            let needle = chars_of(keyword);
            contains_chars(&haystack, &needle)
        },
        None => false,
    }
}

fn keyword_in(message: &Incoming, keyword: &str) -> (r: bool)
    ensures
        r == mentions_keyword(text_view(*message), keyword@),
{
    let text: Option<&str> = match &message.text {
        Some(t) => Some(t.as_str()),
        None => None,
    };
    contains_ignore_case(text, keyword)
}

/// Tells whether the message names Matthew.
pub fn matthew_filter(message: &Incoming) -> (r: bool)
    ensures
        r == mentions_keyword(text_view(*message), MATTHEW_KEYWORD@),
{
    keyword_in(message, MATTHEW_KEYWORD)
}

/// Tells whether the message names the stream.
pub fn stream_filter(message: &Incoming) -> (r: bool)
    ensures
        r == mentions_keyword(text_view(*message), STREAM_KEYWORD@),
{
    keyword_in(message, STREAM_KEYWORD)
}

/// Tells whether the message names Vinogradov.
pub fn vinograd_filter(message: &Incoming) -> (r: bool)
    ensures
        r == mentions_keyword(text_view(*message), VINOGRAD_KEYWORD@),
{
    keyword_in(message, VINOGRAD_KEYWORD)
}

/// Which keyword a message answers to.
#[derive(Debug, Clone, Copy, PartialEq, Eq, Structural)]
pub enum Keyword {
    Stream,
    Matthew,
    Vinograd,
}

/// The keyword the message answers to: the stream before Matthew, Matthew
/// before Vinogradov; nothing when it names none of them.
pub open spec fn routed(m: Incoming) -> Option<Keyword> {
    if mentions_keyword(text_view(m), STREAM_KEYWORD@) {
        Some(Keyword::Stream)
    } else if mentions_keyword(text_view(m), MATTHEW_KEYWORD@) {
        Some(Keyword::Matthew)
    } else if mentions_keyword(text_view(m), VINOGRAD_KEYWORD@) {
        Some(Keyword::Vinograd)
    } else {
        None
    }
}

/// Decides which keyword, if any, a message gets an answer for.
pub fn route(message: &Incoming) -> (r: Option<Keyword>)
    ensures
        r == routed(*message),
{
    if stream_filter(message) {
        Some(Keyword::Stream)
    } else if matthew_filter(message) {
        Some(Keyword::Matthew)
    } else if vinograd_filter(message) {
        Some(Keyword::Vinograd)
    } else {
        None
    }
}

/// Decides, with a chance of three in ten, whether Matthew's keyword gets an
/// answer.
pub fn should_reply(rng: &mut StdRng) -> (r: bool) {
    random_ratio(rng, 3, 10)
}

/// Picks the answer to a keyword of the source: with the given chance in a
/// thousand a phrase generated out of every quote, otherwise (or when no
/// phrase came out) a quote of the source with its id.
///
/// Returns nothing when no phrase was generated and the source has no quote.
pub fn keyword_reply(store: &Store, source: &str, rng: &mut StdRng, generated_per_mille: u32) -> (r: Option<(String, Option<i64>)>)
    requires
        generated_per_mille <= 1000,
    ensures
        r matches Some((text, None)) ==> generated_per_mille > 0 && joined_walk(corpus_of(*store), text@),
        r matches Some((text, Some(id))) ==> exists|i: int| 0 <= i < store.quote_list().len()
            && #[trigger] store.quote_list()[i].0 == id
            && store.quote_list()[i].1 == source@
            && store.quote_list()[i].2 == text@,
        r is None ==> !store.has_source(source@),
        generated_per_mille == 0 ==> (r is Some <==> store.has_source(source@)),
        generated_per_mille == 1000 && starts_of(corpus_of(*store)).len() > 0 && every_walk_kept(corpus_of(*store))
            ==> r matches Some((_, None)),
{
    let rolled = random_ratio(rng, generated_per_mille, 1000);
    answer_after_roll(store, source, rng, rolled)
}

/// Answers once the share roll is known: a phrase generated out of every
/// quote when the roll came up and a phrase came out, otherwise a quote of
/// the source with its id.
pub fn answer_after_roll(store: &Store, source: &str, rng: &mut StdRng, rolled: bool) -> (r: Option<(String, Option<i64>)>)
    ensures
        r matches Some((text, None)) ==> rolled && joined_walk(corpus_of(*store), text@),
        r matches Some((text, Some(id))) ==> exists|i: int| 0 <= i < store.quote_list().len()
            && #[trigger] store.quote_list()[i].0 == id
            && store.quote_list()[i].1 == source@
            && store.quote_list()[i].2 == text@,
        r is None ==> !store.has_source(source@),
        !rolled ==> (r is Some <==> store.has_source(source@)),
        rolled && starts_of(corpus_of(*store)).len() > 0 && every_walk_kept(corpus_of(*store))
            ==> r matches Some((_, None)),
{
    if rolled {
        let corpus = store.all_quotes();
        assert(views(corpus@) =~= corpus_of(*store));
        match generate(&corpus, rng) {
            Some(generated) => {
                return Some((generated, None));
            },
            None => {},
        }
    }
    match store.random_quote_with_id(source, rng) {
        Some((quote, text)) => Some((text, Some(quote))),
        None => None,
    }
}

/// Returns a random entry of the pool, which must not be empty.
pub fn random_string_from(pool: &Vec<&'static str>, rng: &mut StdRng) -> (r: Option<&'static str>)
    requires
        pool@.len() > 0,
    ensures
        r matches Some(s) && pool@.contains(s),
{
    let at = random_index(rng, pool.len());
    assert(pool@[at as int] == pool[at as int]);
    Some(pool[at])
}

/// Remembers who sent a reply of the bot and which quote it carries, so a
/// reaction on that reply can be counted later.
pub fn remember(store: &mut Store, sent: &Incoming, quote: Option<i64>)
    ensures
        final(store).owner_map() == match sent.from {
            Some(a) => after_remember(old(store).owner_map(), sent.chat, sent.message_id, cast_id(a.id), quote),
            None => old(store).owner_map(),
        },
        final(store).same_except(*old(store), set![Part::Owners]),
{
    match &sent.from {
        Some(author) => {
            store.remember_message(sent.chat, sent.message_id, crate::update::cast(author.id), quote);
        },
        None => {},
    }
}

} // verus!
