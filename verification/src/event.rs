use vstd::prelude::*;

use crate::chars::{chars_of, lowercase, string_of, to_lowercase};
use crate::clock::{hour_in_moscow, moscow_hour};
use crate::store::opt_view;
use crate::text::{
    has_mat, has_mat_spec, is_apology, is_apology_spec, is_call_to_play, is_call_to_play_spec,
    is_laugh_only, is_laugh_only_spec, is_politics, mentions_stream, mentions_vinograd, token_seq,
    tokens, any_starts_with,
};
use crate::update::{cast, cast_id, text_of, Entity, Incoming, Update};
use crate::words::{politics_stems, stream_stem, vinograd_stem};

verus! {

/// Whom a message mentions.
#[derive(Debug, Clone, PartialEq, Eq)]
pub enum Mention {
    /// A user known by id.
    Id(i64),
    /// A user known by username, in lower case and without the `@`.
    Username(String),
}

/// A mention, by its plain values.
pub enum MentionOf {
    Id(i64),
    Username(Seq<char>),
}

impl View for Mention {
    type V = MentionOf;

    open spec fn view(&self) -> MentionOf {
        match self {
            Mention::Id(id) => MentionOf::Id(*id),
            Mention::Username(name) => MentionOf::Username(name@),
        }
    }
}

/// The facts the achievements need about one message.
#[derive(Debug, Clone)]
pub struct Event {
    pub chat: i64,
    pub user: i64,
    pub username: Option<String>,
    pub first_name: String,
    /// When it was sent, in seconds since the epoch.
    pub created_at: i64,
    pub message_id: i32,
    pub len: usize,
    pub hour_msk: u32,
    pub reply_to_user: Option<i64>,
    pub reply_to_bot: bool,
    pub mentions: Vec<Mention>,
    pub mat: bool,
    pub apology: bool,
    pub politics: bool,
    pub laugh_only: bool,
    pub call_to_play: bool,
    pub stream: bool,
    pub vinograd: bool,
}

/// The text without the `@` signs it starts with.
pub open spec fn trim_ats(s: Seq<char>) -> Seq<char>
    decreases s.len(),
{
    if s.len() > 0 && s[0] == '@' {
        trim_ats(s.drop_first())
    } else {
        s
    }
}

/// The mentions of a message, in the order of its entities.
pub open spec fn mentions_of(es: Seq<Entity>) -> Seq<MentionOf>
    decreases es.len(),
{
    if es.len() == 0 {
        Seq::empty()
    } else {
        let rest = mentions_of(es.drop_last());
        match es.last() {
            Entity::TextMention(id) => rest.push(MentionOf::Id(cast_id(id))),
            Entity::Mention(text) => rest.push(MentionOf::Username(lowercase(trim_ats(text@)))),
            Entity::Other => rest,
        }
    }
}

pub open spec fn mention_views(ms: Seq<Mention>) -> Seq<MentionOf> {
    ms.map_values(|m: Mention| m@)
}

/// `e` holds the facts of message `m`, written by a person.
pub open spec fn describes(e: Event, m: Incoming) -> bool {
    let author = m.from.unwrap();
    let text = text_of(m);
    let words = token_seq(text);
    &&& e.chat == m.chat
    &&& e.user == cast_id(author.id)
    &&& opt_view(e.username) == opt_view(author.username)
    &&& e.first_name@ == author.first_name@
    &&& e.created_at == m.date
    &&& e.message_id == m.message_id
    &&& e.len == text.len()
    &&& e.hour_msk == hour_in_moscow(m.date as int)
    &&& e.reply_to_user == match m.reply_from { Some(a) => Some(cast_id(a.id)), None => None }
    &&& e.reply_to_bot == match m.reply_from { Some(a) => a.is_bot, None => false }
    &&& mention_views(e.mentions@) == mentions_of(m.entities@)
    &&& e.mat == has_mat_spec(words)
    &&& e.apology == is_apology_spec(text, words)
    &&& e.politics == any_starts_with(words, politics_stems())
    &&& e.laugh_only == is_laugh_only_spec(words)
    &&& e.call_to_play == is_call_to_play_spec(words)
    &&& e.stream == any_starts_with(words, seq![stream_stem()])
    &&& e.vinograd == any_starts_with(words, seq![vinograd_stem()])
}

/// The update is a message written by a person.
pub open spec fn is_human_message(u: Update) -> bool {
    u matches Update::Message(m) && m.from is Some && !m.from.unwrap().is_bot
}

/// Returns the text without the `@` signs it starts with.
fn trim_start_ats(text: &str) -> (r: String)
    ensures
        r@ == trim_ats(text@),
{
    let chars = chars_of(text);
    let mut start: usize = 0;
    assert(chars@.skip(0) =~= chars@);
    while start < chars.len() && chars[start] == '@'
        invariant
            start <= chars@.len(),
            chars@ == text@,
            trim_ats(chars@.skip(start as int)) == trim_ats(text@),
        decreases chars.len() - start,
    {
        assert(chars@.skip(start as int).drop_first() =~= chars@.skip(start + 1));
        start = start + 1;
    }
    let mut rest: Vec<char> = Vec::new();
    let mut i: usize = start;
    while i < chars.len()
        invariant
            start <= i <= chars@.len(),
            rest@ == chars@.subrange(start as int, i as int),
        decreases chars.len() - i,
    {
        rest.push(chars[i]);
        i = i + 1;
        assert(rest@ =~= chars@.subrange(start as int, i as int));
    }
    assert(rest@ =~= chars@.skip(start as int));
    string_of(&rest)
}

/// Returns the mentions of the message entities, in their order.
fn mentions(entities: &Vec<Entity>) -> (r: Vec<Mention>)
    ensures
        mention_views(r@) == mentions_of(entities@),
{
    let mut r: Vec<Mention> = Vec::new();
    let mut i: usize = 0;
    while i < entities.len()
        invariant
            i <= entities.len(),
            mention_views(r@) == mentions_of(entities@.take(i as int)),
        decreases entities.len() - i,
    {
        let ghost before = r@;
        assert(entities@.take(i + 1).drop_last() =~= entities@.take(i as int));
        match &entities[i] {
            Entity::TextMention(id) => {
                r.push(Mention::Id(cast(*id)));
            },
            Entity::Mention(text) => {
                let trimmed = trim_start_ats(text.as_str());
                r.push(Mention::Username(to_lowercase(trimmed.as_str())));
            },
            Entity::Other => {},
        }
        assert(mention_views(r@) =~= mentions_of(entities@.take(i + 1)));
        i = i + 1;
    }
    assert(entities@.take(i as int) =~= entities@);
    r
}

impl Event {
    /// Reads a message update into the facts the achievements need.
    ///
    /// Returns nothing for updates that are not messages, for messages
    /// without an author and for messages written by a bot.
    pub fn parse(update: &Update) -> (r: Option<Self>)
        ensures
            r is Some <==> is_human_message(*update),
            r matches Some(e) ==> describes(e, update->Message_0),
    {
        let message = match update {
            Update::Message(message) => message,
            _ => {
                return None;
            },
        };
        let author = match &message.from {
            Some(author) => author,
            None => {
                return None;
            },
        };
        if author.is_bot {
            return None;
        }
        let text: &str = match &message.text {
            Some(text) => text.as_str(),
            None => "",
        };
        proof {
            reveal_strlit("");
            assert(text@ == text_of(*message));
        }
        let words = tokens(text);
        let length = chars_of(text).len();
        let (reply_to_user, reply_to_bot) = match &message.reply_from {
            Some(replied) => (Some(cast(replied.id)), replied.is_bot),
            None => (None, false),
        };
        Some(Event {
            chat: message.chat,
            user: cast(author.id),
            username: author.username.clone(),
            first_name: author.first_name.clone(),
            created_at: message.date,
            message_id: message.message_id,
            len: length,
            hour_msk: moscow_hour(message.date),
            reply_to_user,
            reply_to_bot,
            mentions: mentions(&message.entities),
            mat: has_mat(words.as_slice()),
            apology: is_apology(text, words.as_slice()),
            politics: is_politics(words.as_slice()),
            laugh_only: is_laugh_only(words.as_slice()),
            call_to_play: is_call_to_play(words.as_slice()),
            stream: mentions_stream(words.as_slice()),
            vinograd: mentions_vinograd(words.as_slice()),
        })
    }
}

} // verus!
