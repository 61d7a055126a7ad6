use vstd::prelude::*;

use crate::chars::{chars_of, eq_ascii_fold, eq_ignore_ascii_case, extend_str, string_of};
use crate::clock::{representable, rfc3339, rfc3339_of};
use crate::sources::MATTHEW_USERNAME;
use crate::store::{after_remember, is_waiting, opt_view, Part, Store, StoreError};
use crate::update::{cast, cast_id, text_of, Author, Incoming, Update};

verus! {

pub const SHORT_MESSAGE_CHARS: usize = 10;
pub const PREVIEW_CHARS: usize = 60;

/// What became of a message as a candidate quote.
#[derive(Debug, Clone, Copy, PartialEq, Eq, Structural)]
pub enum Collected {
    /// Matthew did not write it.
    NotMatthew,
    /// It has no text.
    NoText,
    /// It is too short to become a quote.
    TooShort,
    /// It waits to become a quote now.
    Stored,
    /// It was waiting already.
    AlreadyStored,
    /// The store refused it.
    Failed,
}

/// The author goes by Matthew's username, ignoring ASCII case.
pub open spec fn by_matthew(from: Option<Author>) -> bool {
    match from {
        Some(a) => match opt_view(a.username) {
            Some(name) => eq_ascii_fold(name, MATTHEW_USERNAME@),
            None => false,
        },
        None => false,
    }
}

/// Tells whether Matthew wrote the message.
pub fn is_written_by_matthew(message: &Incoming) -> (r: bool)
    ensures
        r == by_matthew(message.from),
{
    match &message.from {
        Some(author) => match &author.username {
            Some(name) => {
                let got = chars_of(name.as_str());
                let wanted = chars_of(MATTHEW_USERNAME);
                eq_ignore_ascii_case(got.as_slice(), wanted.as_slice())
            },
            None => false,
        },
        None => false,
    }
}

/// The message is long enough to become a quote.
pub open spec fn long_enough(m: Incoming) -> bool {
    text_of(m).len() > SHORT_MESSAGE_CHARS
}

/// What collecting the message does to the waiting queue, `r` being the
/// answer: Matthew's long messages join the queue once, and only running out
/// of identifiers refuses one.
pub open spec fn collects(before: Store, after: Store, m: Incoming, r: Collected) -> bool {
    let waiting = before.waiting_list();
    let next = before.next_waiting_id();
    let kept = after.waiting_list() == waiting && after.next_waiting_id() == next;
    if !by_matthew(m.from) {
        r == Collected::NotMatthew && kept
    } else if m.text is None {
        r == Collected::NoText && kept
    } else if !long_enough(m) {
        r == Collected::TooShort && kept
    } else if is_waiting(waiting, m.chat, m.message_id) {
        r == Collected::AlreadyStored && kept
    } else if next == i64::MAX {
        r == Collected::Failed && kept
    } else {
        &&& r == Collected::Stored
        &&& after.waiting_list() == waiting.push((next, m.chat, m.message_id, rfc3339_of(m.date), text_of(m)))
        &&& after.next_waiting_id() == next + 1
    }
}

/// Stores a message Matthew wrote, when it is long enough, to become a quote
/// later.
pub fn collect_matthew_message(store: &mut Store, message: &Incoming) -> (r: Collected)
    requires
        representable(message.date as int),
    ensures
        collects(*old(store), *final(store), *message, r),
        final(store).same_except(*old(store), set![Part::Waiting]),
        r == Collected::NotMatthew || r == Collected::NoText || r == Collected::TooShort
            ==> final(store).same_except(*old(store), Set::<Part>::empty()),
{
    if !is_written_by_matthew(message) {
        return Collected::NotMatthew;
    }
    let text = match &message.text {
        Some(text) => text,
        None => {
            return Collected::NoText;
        },
    };
    let length = chars_of(text.as_str()).len();
    if length <= SHORT_MESSAGE_CHARS {
        return Collected::TooShort;
    }
    let sent_at = match rfc3339(message.date) {
        Some(at) => at,
        None => String::new(),
    };
    let outcome = store.store_matthew_message(message.chat, message.message_id, sent_at.as_str(), text.as_str());
    assert(text@ == text_of(*message));
    match outcome {
        Ok(true) => Collected::Stored,
        Ok(false) => Collected::AlreadyStored,
        Err(_) => Collected::Failed,
    }
}

/// Remembers the chat, who wrote the message, and a message Matthew wrote
/// that is long enough to become a quote.
///
/// Returns nothing, changing nothing, for updates that are not messages.
pub fn observe(store: &mut Store, update: &Update) -> (r: Option<Collected>)
    requires
        update matches Update::Message(m) ==> representable(m.date as int),
    ensures
        !(update is Message) ==> r is None && final(store).same_except(*old(store), Set::<Part>::empty()),
        update matches Update::Message(m) ==> {
            &&& r is Some
            &&& final(store).chat_list() == if old(store).chat_list().contains(m.chat) {
                old(store).chat_list()
            } else {
                old(store).chat_list().push(m.chat)
            }
            &&& final(store).owner_map() == match m.from {
                Some(a) => after_remember(old(store).owner_map(), m.chat, m.message_id, cast_id(a.id), None),
                None => old(store).owner_map(),
            }
            &&& final(store).chat_list().contains(m.chat)
            &&& final(store).chat_list().no_duplicates()
            &&& collects(*old(store), *final(store), *m, r->0)
            &&& final(store).same_except(*old(store), set![Part::Chats, Part::Owners, Part::Waiting])
        },
{
    let message = match update {
        Update::Message(message) => message,
        _ => {
            return None;
        },
    };
    store.remember_chat(message.chat);
    match &message.from {
        Some(author) => {
            store.remember_message(message.chat, message.message_id, cast(author.id), None);
        },
        None => {},
    }
    Some(collect_matthew_message(store, message))
}

/// The beginning of a text for the log: its first sixty characters, and
/// three dots when it goes on.
pub open spec fn preview_of(text: Seq<char>) -> Seq<char> {
    if text.len() > PREVIEW_CHARS {
        text.take(PREVIEW_CHARS as int) + "..."@
    } else {
        text
    }
}

/// Returns the beginning of the text for the log.
pub fn preview(text: &str) -> (r: String)
    ensures
        r@ == preview_of(text@),
{
    let chars = chars_of(text);
    if chars.len() <= PREVIEW_CHARS {
        return string_of(&chars);
    }
    let mut v: Vec<char> = Vec::new();
    let mut i: usize = 0;
    while i < PREVIEW_CHARS
        invariant
            i <= PREVIEW_CHARS,
            chars@.len() > PREVIEW_CHARS,
            v@ == chars@.take(i as int),
        decreases PREVIEW_CHARS - i,
    {
        v.push(chars[i]);
        i = i + 1;
        assert(v@ =~= chars@.take(i as int));
    }
    extend_str(&mut v, "...");
    string_of(&v)
}

} // verus!
