use vstd::prelude::*;

use crate::store::opt_view;

verus! {

/// Who wrote a message, as Telegram tells it.
pub struct Author {
    pub id: u64,
    pub is_bot: bool,
    pub username: Option<String>,
    pub first_name: String,
}

/// A marked piece of a message text the achievements care about.
pub enum Entity {
    /// A mention of a user who has no username, carrying their id.
    TextMention(u64),
    /// An `@username` mention, carrying the marked text.
    Mention(String),
    /// Any other kind of entity.
    Other,
}

/// A message that arrived in a chat.
pub struct Incoming {
    pub chat: i64,
    pub message_id: i32,
    /// When it was sent, in seconds since the epoch.
    pub date: i64,
    pub from: Option<Author>,
    pub text: Option<String>,
    /// The author of the message this one replies to, when it replies to a
    /// message that has one.
    pub reply_from: Option<Author>,
    pub entities: Vec<Entity>,
}

/// Someone changed their reaction on a message.
pub struct ReactionUpdate {
    pub chat: i64,
    pub message_id: i32,
    /// The user who reacted, when the reaction is not anonymous.
    pub actor: Option<u64>,
    pub old_empty: bool,
    pub new_empty: bool,
}

/// What Telegram sent the bot.
pub enum Update {
    Message(Incoming),
    Reaction(ReactionUpdate),
    Other,
}

/// The text of the message, empty when it has none.
pub open spec fn text_of(m: Incoming) -> Seq<char> {
    match m.text {
        Some(t) => t@,
        None => Seq::empty(),
    }
}

/// A Telegram user id as a 64-bit signed integer, the largest one standing
/// for any id above it.
pub open spec fn cast_id(id: u64) -> i64 {
    if id <= i64::MAX as u64 { id as i64 } else { i64::MAX }
}

/// Returns the user id as a signed integer, the largest one standing for any
/// id above it.
pub fn cast(id: u64) -> (r: i64)
    ensures
        r == cast_id(id),
{
    if id <= 0x7fff_ffff_ffff_ffffu64 {
        id as i64
    } else {
        0x7fff_ffff_ffff_ffffi64
    }
}

} // verus!
