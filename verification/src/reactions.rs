use vstd::prelude::*;

use crate::chars::{chars_of, eq_ascii_fold, eq_ignore_ascii_case};
use crate::sources::MATTHEW_USERNAME;
use crate::store::{after_remember, after_write, promotes, scores, MemberInfo, MessageOwner, Part, Store, StoreError};
use crate::update::{cast, cast_id, ReactionUpdate};

verus! {

pub const UNANSWERED_STREAK: &'static str = "unanswered_streak";

/// What a reaction did.
pub struct Reacted {
    /// Who wrote the message reacted to, and the quote it carries.
    pub owner: MessageOwner,
    /// The score of the quote was raised, or the store refused to.
    pub scored: Option<Result<(), StoreError>>,
    /// The streak of the member reacted to started over.
    pub streak_reset: bool,
    /// The message was promoted into the quotes ahead of the queue.
    pub promoted: Option<Result<Option<i64>, StoreError>>,
}

/// The member is known and goes by Matthew's username, ignoring ASCII case.
pub open spec fn is_matthew(m: Map<(i64, i64), MemberInfo>, chat: i64, user: i64) -> bool {
    m.contains_key((chat, user)) && match m[(chat, user)].0 {
        Some(name) => eq_ascii_fold(name, MATTHEW_USERNAME@),
        None => false,
    }
}

/// Tells whether the member goes by Matthew's username.
pub fn wrote_by_matthew(store: &Store, chat: i64, user: i64) -> (r: bool)
    ensures
        r == is_matthew(store.member_map(), chat, user),
{
    match store.member_username(chat, user) {
        Some(name) => {
            let got = chars_of(name.as_str());
            let wanted = chars_of(MATTHEW_USERNAME);
            eq_ignore_ascii_case(got.as_slice(), wanted.as_slice())
        },
        None => false,
    }
}

/// Tells whether the user is no member of the chat, which is how the bot
/// itself looks: it never writes a message the achievements count.
pub fn is_bot(store: &Store, chat: i64, user: i64) -> (r: bool)
    ensures
        r == !store.member_map().contains_key((chat, user)),
{
    !store.is_member(chat, user)
}

/// The reaction comes from someone other than the member reacted to, who
/// is a member of the chat: it answers them.
pub open spec fn answers(m: Map<(i64, i64), MemberInfo>, reaction: ReactionUpdate, owner: MessageOwner) -> bool {
    (match reaction.actor {
        Some(id) => cast_id(id) != owner.user,
        None => true,
    }) && m.contains_key((reaction.chat, owner.user))
}

/// Moves the waiting message into Matthew's quotes ahead of the queue and
/// remembers that the message now carries that quote.
pub fn promote(store: &mut Store, chat: i64, message: i32, user: i64) -> (r: Result<Option<i64>, StoreError>)
    ensures
        promotes(*old(store), *final(store), chat, message, r),
        final(store).owner_map() == match r {
            Ok(Some(quote)) => after_remember(old(store).owner_map(), chat, message, user, Some(quote)),
            _ => old(store).owner_map(),
        },
        r matches Ok(Some(quote)) ==> (old(store).owner_map().contains_key((chat, message))
            ==> final(store).owner_map() == after_write(old(store).owner_map(), chat, message, user, Some(quote))),
        final(store).same_except(*old(store), set![Part::Quotes, Part::Waiting, Part::Owners]),
{
    let r = store.promote_matthew_message(chat, message);
    match r {
        Ok(Some(quote)) => {
            store.remember_message(chat, message, user, Some(quote));
        },
        _ => {},
    }
    r
}

/// Counts a reaction: it raises the score of the quote the message carries
/// when the reaction is a new one, starts over the streak of the member who
/// was reacted to when someone else reacted, and pushes a message Matthew
/// wrote into the quotes ahead of the queue.
///
/// Returns nothing, changing nothing, for a reaction taken back and for a
/// message the bot does not remember.
pub fn observe(store: &mut Store, reaction: &ReactionUpdate) -> (r: Option<Reacted>)
    ensures
        reaction.new_empty || !old(store).owner_map().contains_key((reaction.chat, reaction.message_id))
            <==> r is None,
        r is None ==> final(store).same_except(*old(store), Set::<Part>::empty()),
        r matches Some(done) ==> {
            let members = old(store).member_map();
            let owner = old(store).owner_map()[(reaction.chat, reaction.message_id)];
            &&& done.owner == owner
            &&& done.scored is Some <==> owner.quote is Some && reaction.old_empty
            &&& done.scored matches Some(result) ==> scores(old(store).quote_list(), final(store).quote_list(), owner.quote.unwrap(), result)
            &&& done.streak_reset == answers(members, *reaction, owner)
            &&& final(store).stat_map() == if done.streak_reset {
                old(store).stat_map().insert((reaction.chat, owner.user, UNANSWERED_STREAK@), 0)
            } else {
                old(store).stat_map()
            }
            &&& done.promoted is Some <==> owner.quote is None && is_matthew(members, reaction.chat, owner.user)
            &&& done.promoted matches Some(result) ==> promotes(*old(store), *final(store), reaction.chat, reaction.message_id, result)
            &&& final(store).owner_map() == match done.promoted {
                Some(Ok(Some(quote))) => after_remember(old(store).owner_map(), reaction.chat, reaction.message_id, owner.user, Some(quote)),
                _ => old(store).owner_map(),
            }
            &&& done.promoted matches Some(Ok(Some(quote))) ==> final(store).owner_map() == after_write(
                old(store).owner_map(), reaction.chat, reaction.message_id, owner.user, Some(quote))
            &&& done.scored is None && done.promoted is None ==> final(store).quote_list() == old(store).quote_list()
                && final(store).waiting_list() == old(store).waiting_list()
            &&& final(store).same_except(*old(store), set![Part::Stats, Part::Quotes, Part::Waiting, Part::Owners])
        },
{
    if reaction.new_empty {
        return None;
    }
    let chat = reaction.chat;
    let message = reaction.message_id;
    let owner = match store.message_owner(chat, message) {
        Some(owner) => owner,
        None => {
            return None;
        },
    };
    let scored = match owner.quote {
        Some(quote) => if reaction.old_empty {
            Some(store.bump_quote_score(quote))
        } else {
            None
        },
        None => None,
    };
    let from_someone_else = match reaction.actor {
        Some(id) => cast(id) != owner.user,
        None => true,
    };
    let streak_reset = from_someone_else && !is_bot(store, chat, owner.user);
    if streak_reset {
        store.set_stat(chat, owner.user, UNANSWERED_STREAK, 0);
    }
    let promoted = if owner.quote.is_none() && wrote_by_matthew(store, chat, owner.user) {
        Some(promote(store, chat, message, owner.user))
    } else {
        None
    };
    Some(Reacted { owner, scored, streak_reset, promoted })
}

} // verus!
