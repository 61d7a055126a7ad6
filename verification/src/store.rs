use vstd::prelude::*;

use crate::chars::{chars_of, eq_ascii_fold, eq_ignore_ascii_case, lemma_text_lt_total, lemma_text_lt_transitive, same_text, str_less, text_lt};
use crate::rules::{counter_pairs, Stats};
use crate::random::random_index;
use crate::standings::{in_rank_order, insert_ranked, rank_keys, ranks_before, Ranked};
use crate::sources::{MATTHEW_SOURCE, STREAM_SOURCE, VINOGRAD_SOURCE};
use rand::rngs::StdRng;
use crate::table::{
    as_map, distinct_keys, lemma_filter_count, lemma_lookup_push, lemma_map_absent,
    lemma_map_finite, lemma_map_index, lemma_map_key, lemma_map_push, lemma_map_remove,
    lemma_map_update, lookup,
};

verus! {

/// Why a statement against the store was refused.
#[derive(Debug, Clone, Copy, PartialEq, Eq, Structural)]
pub enum StoreError {
    /// A counter would leave the range of a 64-bit integer.
    Overflow,
}

/// One named counter of one member of one chat.
pub struct StatRow {
    pub chat: i64,
    pub user: i64,
    pub key: String,
    pub value: i64,
}

/// A member of a chat the bot has seen writing.
pub struct MemberRow {
    pub chat: i64,
    pub user: i64,
    pub username: Option<String>,
    pub first_name: String,
    pub last_seen: String,
}

/// One named value of the state of a chat.
pub struct StateRow {
    pub chat: i64,
    pub key: String,
    pub value: i64,
}

/// An achievement a member of a chat owns.
pub struct AchievementRow {
    pub chat: i64,
    pub user: i64,
    pub code: String,
    pub unlocked_at: String,
}

/// Who wrote a message and which quote it carries.
pub struct OwnerRow {
    pub chat: i64,
    pub message: i32,
    pub user: i64,
    pub quote: Option<i64>,
}

/// A quote of one source.
pub struct QuoteRow {
    pub id: i64,
    pub source: String,
    pub text: String,
    pub score: i64,
}

/// A message Matthew wrote that waits to become a quote.
pub struct WaitingRow {
    pub id: i64,
    pub chat: i64,
    pub message: i32,
    pub sent_at: String,
    pub text: String,
}

/// Who wrote a message and which quote it carries.
#[derive(Debug, Clone, Copy, PartialEq, Eq, Structural)]
pub struct MessageOwner {
    pub user: i64,
    pub quote: Option<i64>,
}

/// A member of a chat with their first name.
pub struct Member {
    pub user: i64,
    pub name: String,
}

/// A member of a chat, their first name when they are known, and a count.
pub struct Standing {
    pub user: i64,
    pub name: Option<String>,
    pub count: i64,
}

/// The characters of an optional string.
pub open spec fn opt_view(s: Option<String>) -> Option<Seq<char>> {
    match s {
        Some(t) => Some(t@),
        None => None,
    }
}

/// What is known of a member: username, first name, when last seen.
pub type MemberInfo = (Option<Seq<char>>, Seq<char>, Seq<char>);

pub open spec fn stat_pairs(rows: Seq<StatRow>) -> Seq<((i64, i64, Seq<char>), i64)> {
    rows.map_values(|r: StatRow| ((r.chat, r.user, r.key@), r.value))
}

pub open spec fn member_pairs(rows: Seq<MemberRow>) -> Seq<((i64, i64), MemberInfo)> {
    rows.map_values(|r: MemberRow| ((r.chat, r.user), (opt_view(r.username), r.first_name@, r.last_seen@)))
}

pub open spec fn state_pairs(rows: Seq<StateRow>) -> Seq<((i64, Seq<char>), i64)> {
    rows.map_values(|r: StateRow| ((r.chat, r.key@), r.value))
}

pub open spec fn achievement_pairs(rows: Seq<AchievementRow>) -> Seq<((i64, i64, Seq<char>), Seq<char>)> {
    rows.map_values(|r: AchievementRow| ((r.chat, r.user, r.code@), r.unlocked_at@))
}

pub open spec fn owner_pairs(rows: Seq<OwnerRow>) -> Seq<((i64, i32), MessageOwner)> {
    rows.map_values(|r: OwnerRow| ((r.chat, r.message), MessageOwner { user: r.user, quote: r.quote }))
}

pub open spec fn chat_pairs(rows: Seq<i64>) -> Seq<(i64, ())> {
    rows.map_values(|c: i64| (c, ()))
}

/// Chats with distinct keys are listed once each.
proof fn lemma_chats_distinct(rows: Seq<i64>)
    requires
        distinct_keys(chat_pairs(rows)),
    ensures
        rows.no_duplicates(),
{
    assert forall|i: int, j: int| 0 <= i < rows.len() && 0 <= j < rows.len() && i != j implies rows[i] != rows[j] by {
        assert(chat_pairs(rows)[i].0 == rows[i] && chat_pairs(rows)[j].0 == rows[j]);
    }
}

/// A quote: identifier, source, text, score.
pub type QuoteInfo = (i64, Seq<char>, Seq<char>, i64);

pub open spec fn quote_views(rows: Seq<QuoteRow>) -> Seq<QuoteInfo> {
    rows.map_values(|r: QuoteRow| (r.id, r.source@, r.text@, r.score))
}

/// A waiting message: identifier, chat, message, when sent, text.
pub type WaitingInfo = (i64, i64, i32, Seq<char>, Seq<char>);

pub open spec fn waiting_views(rows: Seq<WaitingRow>) -> Seq<WaitingInfo> {
    rows.map_values(|r: WaitingRow| (r.id, r.chat, r.message, r.sent_at@, r.text@))
}

/// The parts of the store one statement may change.
#[derive(PartialEq, Eq, Structural)]
pub enum Part {
    Stats,
    Members,
    State,
    Achievements,
    Owners,
    Chats,
    Quotes,
    Waiting,
}

/// The chats, members, counters, achievements, quotes and remembered messages
/// the bot keeps.
pub struct Store {
    stats: Vec<StatRow>,
    members: Vec<MemberRow>,
    state: Vec<StateRow>,
    achievements: Vec<AchievementRow>,
    owners: Vec<OwnerRow>,
    chats: Vec<i64>,
    quotes: Vec<QuoteRow>,
    next_quote: i64,
    waiting: Vec<WaitingRow>,
    next_waiting: i64,
}

/// Identifiers strictly grow along the list and stay below the next one.
pub open spec fn ids_increasing(ids: Seq<i64>, next: i64) -> bool {
    &&& forall|i: int, j: int| 0 <= i < j < ids.len() ==> ids[i] < ids[j]
    &&& forall|i: int| 0 <= i < ids.len() ==> #[trigger] ids[i] < next
}

/// No two quotes of one source have the same text.
pub open spec fn quotes_unique(q: Seq<QuoteInfo>) -> bool {
    forall|i: int, j: int| 0 <= i < q.len() && 0 <= j < q.len() && i != j ==> (#[trigger] q[i].1, q[i].2) != (#[trigger] q[j].1, q[j].2)
}

/// No two waiting messages are the same message of the same chat.
pub open spec fn waiting_unique(w: Seq<WaitingInfo>) -> bool {
    forall|i: int, j: int| 0 <= i < w.len() && 0 <= j < w.len() && i != j ==> (#[trigger] w[i].1, w[i].2) != (#[trigger] w[j].1, w[j].2)
}

impl Store {
    #[verifier::type_invariant]
    closed spec fn tables_hold(self) -> bool {
        &&& distinct_keys(stat_pairs(self.stats@))
        &&& distinct_keys(member_pairs(self.members@))
        &&& distinct_keys(state_pairs(self.state@))
        &&& distinct_keys(achievement_pairs(self.achievements@))
        &&& distinct_keys(owner_pairs(self.owners@))
        &&& within_window(as_map(owner_pairs(self.owners@)))
        &&& distinct_keys(chat_pairs(self.chats@))
        &&& ids_increasing(self.quote_list().map_values(|q: QuoteInfo| q.0), self.next_quote)
        &&& quotes_unique(self.quote_list())
        &&& ids_increasing(self.waiting_list().map_values(|w: WaitingInfo| w.0), self.next_waiting)
        &&& waiting_unique(self.waiting_list())
    }

    /// Every counter, by chat, member and name.
    pub closed spec fn stat_map(self) -> Map<(i64, i64, Seq<char>), i64> {
        as_map(stat_pairs(self.stats@))
    }

    /// Every known member, by chat and user.
    pub closed spec fn member_map(self) -> Map<(i64, i64), MemberInfo> {
        as_map(member_pairs(self.members@))
    }

    /// Every state value, by chat and name.
    pub closed spec fn state_map(self) -> Map<(i64, Seq<char>), i64> {
        as_map(state_pairs(self.state@))
    }

    /// Every owned achievement and when it was unlocked, by chat, member and
    /// code.
    pub closed spec fn achievement_map(self) -> Map<(i64, i64, Seq<char>), Seq<char>> {
        as_map(achievement_pairs(self.achievements@))
    }

    /// Every remembered message, by chat and message.
    pub closed spec fn owner_map(self) -> Map<(i64, i32), MessageOwner> {
        as_map(owner_pairs(self.owners@))
    }

    /// The chats the bot has seen, in the order it first saw them.
    pub closed spec fn chat_list(self) -> Seq<i64> {
        self.chats@
    }

    /// The quotes, in the order they were added.
    pub closed spec fn quote_list(self) -> Seq<QuoteInfo> {
        quote_views(self.quotes@)
    }

    /// The messages waiting to become quotes, in the order they were stored.
    pub closed spec fn waiting_list(self) -> Seq<WaitingInfo> {
        waiting_views(self.waiting@)
    }

    /// Every part of the store outside `changed` is the same in both.
    pub open spec fn same_except(self, other: Self, changed: Set<Part>) -> bool {
        &&& (!changed.contains(Part::Stats) ==> self.stat_map() == other.stat_map())
        &&& (!changed.contains(Part::Members) ==> self.member_map() == other.member_map())
        &&& (!changed.contains(Part::State) ==> self.state_map() == other.state_map())
        &&& (!changed.contains(Part::Achievements) ==> self.achievement_map() == other.achievement_map())
        &&& (!changed.contains(Part::Owners) ==> self.owner_map() == other.owner_map())
        &&& (!changed.contains(Part::Chats) ==> self.chat_list() == other.chat_list())
        &&& (!changed.contains(Part::Quotes) ==> self.quote_list() == other.quote_list() && self.next_quote_id() == other.next_quote_id())
        &&& (!changed.contains(Part::Waiting) ==> self.waiting_list() == other.waiting_list() && self.next_waiting_id() == other.next_waiting_id())
    }

    /// The value of one counter, zero when it was never set.
    pub open spec fn stat_of(self, chat: i64, user: i64, key: Seq<char>) -> i64 {
        if self.stat_map().contains_key((chat, user, key)) {
            self.stat_map()[(chat, user, key)]
        } else {
            0
        }
    }

    /// The counters of one member of one chat, by name.
    pub open spec fn member_stats(self, chat: i64, user: i64) -> Map<Seq<char>, i64> {
        Map::new(
            |k: Seq<char>| self.stat_map().contains_key((chat, user, k)),
            |k: Seq<char>| self.stat_map()[(chat, user, k)],
        )
    }

    /// The state of one chat, by name.
    pub open spec fn chat_state(self, chat: i64) -> Map<Seq<char>, i64> {
        Map::new(
            |k: Seq<char>| self.state_map().contains_key((chat, k)),
            |k: Seq<char>| self.state_map()[(chat, k)],
        )
    }

    /// An empty store.
    pub fn empty() -> (r: Self)
        ensures
            r.stat_map() == Map::<(i64, i64, Seq<char>), i64>::empty(),
            r.member_map() == Map::<(i64, i64), MemberInfo>::empty(),
            r.state_map() == Map::<(i64, Seq<char>), i64>::empty(),
            r.achievement_map() == Map::<(i64, i64, Seq<char>), Seq<char>>::empty(),
            r.owner_map() == Map::<(i64, i32), MessageOwner>::empty(),
            r.chat_list() == Seq::<i64>::empty(),
            r.quote_list() == Seq::<QuoteInfo>::empty(),
            r.waiting_list() == Seq::<WaitingInfo>::empty(),
            r.next_quote_id() == 1,
            r.next_waiting_id() == 1,
    {
        let r = Store {
            stats: Vec::new(),
            members: Vec::new(),
            state: Vec::new(),
            achievements: Vec::new(),
            owners: Vec::new(),
            chats: Vec::new(),
            quotes: Vec::new(),
            next_quote: 1,
            waiting: Vec::new(),
            next_waiting: 1,
        };
        assert(r.stat_map() =~= Map::<(i64, i64, Seq<char>), i64>::empty());
        assert(r.member_map() =~= Map::<(i64, i64), MemberInfo>::empty());
        assert(r.state_map() =~= Map::<(i64, Seq<char>), i64>::empty());
        assert(r.achievement_map() =~= Map::<(i64, i64, Seq<char>), Seq<char>>::empty());
        assert(r.owner_map() =~= Map::<(i64, i32), MessageOwner>::empty());
        assert(r.quote_list() =~= Seq::<QuoteInfo>::empty());
        assert(r.waiting_list() =~= Seq::<WaitingInfo>::empty());
        r
    }

    // ----- counters -----

    /// Adds `by` to the counter and returns its new value.
    ///
    /// Refuses, leaving the store as it was, when the sum would leave the
    /// range of a 64-bit integer.
    pub fn bump(&mut self, chat: i64, user: i64, key: &str, by: i64) -> (r: Result<i64, StoreError>)
        ensures
            match r {
                Ok(v) => {
                    &&& v == old(self).stat_of(chat, user, key@) + by
                    &&& final(self).stat_map() == old(self).stat_map().insert((chat, user, key@), v)
                },
                Err(_) => {
                    &&& final(self).stat_map() == old(self).stat_map()
                    &&& (old(self).stat_of(chat, user, key@) + by > i64::MAX || old(self).stat_of(chat, user, key@) + by < i64::MIN)
                },
            },
            final(self).same_except(*old(self), set![Part::Stats]),
    {
        let current = self.stat(chat, user, key);
        let sum = current.checked_add(by);
        match sum {
            Some(v) => {
                self.set_stat(chat, user, key, v);
                Ok(v)
            },
            None => Err(StoreError::Overflow),
        }
    }

    /// Sets the counter to the given value.
    pub fn set_stat(&mut self, chat: i64, user: i64, key: &str, value: i64)
        ensures
            final(self).stat_map() == old(self).stat_map().insert((chat, user, key@), value),
            final(self).same_except(*old(self), set![Part::Stats]),
    {
        proof {
            use_type_invariant(&*self);
        }
        let mut rows: Vec<StatRow> = Vec::new();
        std::mem::swap(&mut rows, &mut self.stats);
        let ghost before = rows@;
        match find_stat(&rows, chat, user, key) {
            Some(at) => {
                let row = StatRow { chat, user, key: rows[at].key.clone(), value };
                rows.set(at, row);
                proof {
                    assert(stat_pairs(rows@) =~= stat_pairs(before).update(at as int, (stat_pairs(before)[at as int].0, value)));
                    lemma_map_update(stat_pairs(before), at as int, value);
                }
            },
            None => {
                rows.push(StatRow { chat, user, key: owned(key), value });
                proof {
                    assert(stat_pairs(rows@) =~= stat_pairs(before).push(((chat, user, key@), value)));
                    crate::table::lemma_push_distinct(stat_pairs(before), ((chat, user, key@), value));
                    lemma_map_push(stat_pairs(before), ((chat, user, key@), value));
                }
            },
        }
        self.stats = rows;
    }

    /// Returns the counter, or zero when it was never set.
    pub fn stat(&self, chat: i64, user: i64, key: &str) -> (r: i64)
        ensures
            r == self.stat_of(chat, user, key@),
    {
        proof {
            use_type_invariant(self);
        }
        match find_stat(&self.stats, chat, user, key) {
            Some(at) => {
                proof {
                    lemma_map_index(stat_pairs(self.stats@), at as int);
                }
                self.stats[at].value
            },
            None => {
                proof {
                    lemma_map_absent(stat_pairs(self.stats@), (chat, user, key@));
                }
                0
            },
        }
    }

    /// Returns every counter of the given member.
    pub fn stats(&self, chat: i64, user: i64) -> (r: Stats)
        ensures
            r@ == self.member_stats(chat, user),
    {
        proof {
            use_type_invariant(self);
        }
        let ghost all = stat_pairs(self.stats@);
        let mut values: Vec<(String, i64)> = Vec::new();
        let mut i: usize = 0;
        while i < self.stats.len()
            invariant
                i <= self.stats.len(),
                all == stat_pairs(self.stats@),
                forall|k: Seq<char>| #![trigger lookup(counter_pairs(values@), k)] lookup(counter_pairs(values@), k) == lookup(all.take(i as int), (chat, user, k)),
            decreases self.stats.len() - i,
        {
            let ghost before = values@;
            assert(all.take(i + 1) =~= all.take(i as int).push(all[i as int]));
            if self.stats[i].chat == chat && self.stats[i].user == user {
                values.push((self.stats[i].key.clone(), self.stats[i].value));
                assert(counter_pairs(values@) =~= counter_pairs(before).push((self.stats@[i as int].key@, self.stats@[i as int].value)));
                assert forall|k: Seq<char>| #![trigger lookup(counter_pairs(values@), k)] lookup(counter_pairs(values@), k) == lookup(all.take(i + 1), (chat, user, k)) by {
                    lemma_lookup_push(counter_pairs(before), (self.stats@[i as int].key@, self.stats@[i as int].value), k);
                    lemma_lookup_push(all.take(i as int), all[i as int], (chat, user, k));
                }
            } else {
                assert forall|k: Seq<char>| #![trigger lookup(counter_pairs(values@), k)] lookup(counter_pairs(values@), k) == lookup(all.take(i + 1), (chat, user, k)) by {
                    lemma_lookup_push(all.take(i as int), all[i as int], (chat, user, k));
                }
            }
            i = i + 1;
        }
        assert(all.take(self.stats.len() as int) =~= all);
        let r = Stats::new(values);
        assert(r@ =~= self.member_stats(chat, user));
        r
    }

    // ----- chat state -----

    /// Returns every state value of the chat.
    pub fn state(&self, chat: i64) -> (r: Stats)
        ensures
            r@ == self.chat_state(chat),
    {
        proof {
            use_type_invariant(self);
        }
        let ghost all = state_pairs(self.state@);
        let mut values: Vec<(String, i64)> = Vec::new();
        let mut i: usize = 0;
        while i < self.state.len()
            invariant
                i <= self.state.len(),
                all == state_pairs(self.state@),
                forall|k: Seq<char>| #![trigger lookup(counter_pairs(values@), k)] lookup(counter_pairs(values@), k) == lookup(all.take(i as int), (chat, k)),
            decreases self.state.len() - i,
        {
            let ghost before = values@;
            assert(all.take(i + 1) =~= all.take(i as int).push(all[i as int]));
            if self.state[i].chat == chat {
                values.push((self.state[i].key.clone(), self.state[i].value));
                assert(counter_pairs(values@) =~= counter_pairs(before).push((self.state@[i as int].key@, self.state@[i as int].value)));
                assert forall|k: Seq<char>| #![trigger lookup(counter_pairs(values@), k)] lookup(counter_pairs(values@), k) == lookup(all.take(i + 1), (chat, k)) by {
                    lemma_lookup_push(counter_pairs(before), (self.state@[i as int].key@, self.state@[i as int].value), k);
                    lemma_lookup_push(all.take(i as int), all[i as int], (chat, k));
                }
            } else {
                assert forall|k: Seq<char>| #![trigger lookup(counter_pairs(values@), k)] lookup(counter_pairs(values@), k) == lookup(all.take(i + 1), (chat, k)) by {
                    lemma_lookup_push(all.take(i as int), all[i as int], (chat, k));
                }
            }
            i = i + 1;
        }
        assert(all.take(self.state.len() as int) =~= all);
        let r = Stats::new(values);
        assert(r@ =~= self.chat_state(chat));
        r
    }

    /// Sets a state value of the chat.
    pub fn set_state(&mut self, chat: i64, key: &str, value: i64)
        ensures
            final(self).state_map() == old(self).state_map().insert((chat, key@), value),
            final(self).same_except(*old(self), set![Part::State]),
    {
        proof {
            use_type_invariant(&*self);
        }
        let mut rows: Vec<StateRow> = Vec::new();
        std::mem::swap(&mut rows, &mut self.state);
        let ghost before = rows@;
        let mut found: Option<usize> = None;
        let mut i: usize = 0;
        while i < rows.len()
            invariant
                i <= rows.len(),
                rows@ == before,
                found is None ==> forall|j: int| 0 <= j < i ==> #[trigger] state_pairs(rows@)[j].0 != (chat, key@),
                found matches Some(at) ==> at < rows.len() && state_pairs(rows@)[at as int].0 == (chat, key@),
            decreases rows.len() - i,
        {
            if found.is_none() && rows[i].chat == chat && same_text(rows[i].key.as_str(), key) {
                found = Some(i);
            }
            i = i + 1;
        }
        match found {
            Some(at) => {
                let row = StateRow { chat, key: rows[at].key.clone(), value };
                rows.set(at, row);
                proof {
                    assert(state_pairs(rows@) =~= state_pairs(before).update(at as int, (state_pairs(before)[at as int].0, value)));
                    lemma_map_update(state_pairs(before), at as int, value);
                }
            },
            None => {
                rows.push(StateRow { chat, key: owned(key), value });
                proof {
                    crate::table::lemma_lookup_absent(state_pairs(before), (chat, key@));
                    assert(state_pairs(rows@) =~= state_pairs(before).push(((chat, key@), value)));
                    crate::table::lemma_push_distinct(state_pairs(before), ((chat, key@), value));
                    lemma_map_push(state_pairs(before), ((chat, key@), value));
                }
            },
        }
        self.state = rows;
    }

    // ----- chats -----

    /// Remembers a chat the bot has seen.
    pub fn remember_chat(&mut self, chat: i64)
        ensures
            final(self).chat_list() == if old(self).chat_list().contains(chat) {
                old(self).chat_list()
            } else {
                old(self).chat_list().push(chat)
            },
            final(self).chat_list().contains(chat),
            final(self).chat_list().no_duplicates(),
            final(self).same_except(*old(self), set![Part::Chats]),
    {
        proof {
            use_type_invariant(&*self);
            lemma_chats_distinct(self.chats@);
        }
        let mut i: usize = 0;
        while i < self.chats.len()
            invariant
                i <= self.chats.len(),
                self.chats@.no_duplicates(),
                forall|j: int| 0 <= j < i ==> self.chats@[j] != chat,
            decreases self.chats.len() - i,
        {
            if self.chats[i] == chat {
                assert(self.chat_list()[i as int] == chat);
                return;
            }
            i = i + 1;
        }
        let mut rows: Vec<i64> = Vec::new();
        std::mem::swap(&mut rows, &mut self.chats);
        let ghost before = rows@;
        rows.push(chat);
        proof {
            assert(chat_pairs(rows@) =~= chat_pairs(before).push((chat, ())));
            assert forall|j: int| 0 <= j < chat_pairs(before).len() implies #[trigger] chat_pairs(before)[j].0 != chat by {}
            crate::table::lemma_lookup_absent(chat_pairs(before), chat);
            crate::table::lemma_push_distinct(chat_pairs(before), (chat, ()));
        }
        self.chats = rows;
        proof {
            lemma_chats_distinct(self.chats@);
            assert(self.chats@[self.chats@.len() - 1] == chat);
        }
    }

    /// Returns every chat the bot has seen, each once.
    pub fn chats(&self) -> (r: Vec<i64>)
        ensures
            r@ == self.chat_list(),
            r@.no_duplicates(),
    {
        proof {
            use_type_invariant(self);
            lemma_chats_distinct(self.chats@);
        }
        let mut r: Vec<i64> = Vec::new();
        let mut i: usize = 0;
        while i < self.chats.len()
            invariant
                i <= self.chats.len(),
                r@ == self.chats@.take(i as int),
            decreases self.chats.len() - i,
        {
            r.push(self.chats[i]);
            i = i + 1;
            assert(r@ =~= self.chats@.take(i as int));
        }
        assert(self.chats@.take(i as int) =~= self.chats@);
        r
    }
}

/// An owned copy of a text.
pub fn owned(key: &str) -> (r: String)
    ensures
        r@ == key@,
{
    key.to_owned()
}

fn find_stat(rows: &Vec<StatRow>, chat: i64, user: i64, key: &str) -> (r: Option<usize>)
    ensures
        r matches Some(at) ==> at < rows@.len() && stat_pairs(rows@)[at as int].0 == (chat, user, key@),
        r is None ==> forall|j: int| 0 <= j < rows@.len() ==> #[trigger] stat_pairs(rows@)[j].0 != (chat, user, key@),
        r is None ==> lookup(stat_pairs(rows@), (chat, user, key@)) is None,
{
    let mut i: usize = 0;
    while i < rows.len()
        invariant
            i <= rows.len(),
            forall|j: int| 0 <= j < i ==> #[trigger] stat_pairs(rows@)[j].0 != (chat, user, key@),
        decreases rows.len() - i,
    {
        if rows[i].chat == chat && rows[i].user == user && same_text(rows[i].key.as_str(), key) {
            return Some(i);
        }
        i = i + 1;
    }
    proof {
        crate::table::lemma_lookup_absent(stat_pairs(rows@), (chat, user, key@));
    }
    None
}


/// The characters of an optional string slice.
pub open spec fn opt_str(s: Option<&str>) -> Option<Seq<char>> {
    match s {
        Some(t) => Some(t@),
        None => None,
    }
}

/// How many remembered messages of the chat have a larger identifier.
pub open spec fn newer_count(m: Map<(i64, i32), MessageOwner>, chat: i64, message: i32) -> nat {
    m.dom().filter(newer_than(chat, message)).len()
}

/// The message is of the chat and has a larger identifier than `message`.
pub open spec fn newer_than(chat: i64, message: i32) -> spec_fn((i64, i32)) -> bool {
    |k: (i64, i32)| k.0 == chat && k.1 > message
}

/// How many messages of each chat are remembered at most.
pub const REMEMBERED_PER_CHAT: usize = 500;

/// The remembered messages with only the newest of the chat kept.
pub open spec fn windowed(m: Map<(i64, i32), MessageOwner>, chat: i64) -> Map<(i64, i32), MessageOwner> {
    Map::new(
        |k: (i64, i32)| m.contains_key(k) && (k.0 != chat || newer_count(m, chat, k.1) < REMEMBERED_PER_CHAT),
        |k: (i64, i32)| m[k],
    )
}

/// Every remembered message is among the newest of its chat.
pub open spec fn within_window(m: Map<(i64, i32), MessageOwner>) -> bool {
    forall|k: (i64, i32)| #[trigger] m.contains_key(k) ==> newer_count(m, k.0, k.1) < REMEMBERED_PER_CHAT
}

/// Remembering a message keeps every chat within its newest messages, and
/// writing a message that is already remembered drops nothing.
proof fn lemma_remember_within(m: Map<(i64, i32), MessageOwner>, key: (i64, i32), v: MessageOwner)
    requires
        within_window(m),
        m.dom().finite(),
    ensures
        within_window(windowed(m.insert(key, v), key.0)),
        windowed(m.insert(key, v), key.0).dom().finite(),
        m.contains_key(key) ==> windowed(m.insert(key, v), key.0) == m.insert(key, v),
{
    let chat = key.0;
    let n = m.insert(key, v);
    let w = windowed(n, chat);
    assert(n.dom() =~= m.dom().insert(key));
    assert(w.dom().subset_of(n.dom()));
    vstd::set_lib::lemma_len_subset(w.dom(), n.dom());
    assert forall|k: (i64, i32)| #[trigger] w.contains_key(k) implies newer_count(w, k.0, k.1) < REMEMBERED_PER_CHAT by {
        let q = newer_than(k.0, k.1);
        assert(w.dom().filter(q).subset_of(n.dom().filter(q)));
        n.dom().lemma_len_filter(q);
        vstd::set_lib::lemma_len_subset(w.dom().filter(q), n.dom().filter(q));
        if k.0 != chat {
            assert(w.dom().filter(q) =~= m.dom().filter(q));
            assert(m.contains_key(k));
        }
    }
    if m.contains_key(key) {
        assert(n.dom() =~= m.dom());
        assert forall|k: (i64, i32)| #[trigger] n.contains_key(k) implies newer_count(n, k.0, k.1) < REMEMBERED_PER_CHAT by {
            assert(n.dom().filter(newer_than(k.0, k.1)) =~= m.dom().filter(newer_than(k.0, k.1)));
        }
        assert(w =~= n);
    }
}

/// The member is known and was last seen at or after `since`.
pub open spec fn is_active(m: Map<(i64, i64), MemberInfo>, chat: i64, user: i64, since: Seq<char>) -> bool {
    m.contains_key((chat, user)) && !text_lt(m[(chat, user)].2, since)
}

/// The member is known and goes by the username, ignoring ASCII case.
pub open spec fn goes_by(m: Map<(i64, i64), MemberInfo>, chat: i64, user: i64, username: Seq<char>) -> bool {
    m.contains_key((chat, user)) && name_matches(m[(chat, user)].0, username)
}

/// The optional username equals the given one, ignoring ASCII case.
pub open spec fn name_matches(name: Option<Seq<char>>, username: Seq<char>) -> bool {
    match name {
        Some(n) => eq_ascii_fold(n, username),
        None => false,
    }
}

impl Store {
    // ----- members -----

    /// Records the member, refreshing their name and username when already known.
    pub fn upsert_member(&mut self, chat: i64, user: i64, username: Option<&str>, first_name: &str, seen_at: &str)
        ensures
            final(self).member_map() == old(self).member_map().insert((chat, user), (opt_str(username), first_name@, seen_at@)),
            final(self).same_except(*old(self), set![Part::Members]),
    {
        proof {
            use_type_invariant(&*self);
        }
        let mut rows: Vec<MemberRow> = Vec::new();
        std::mem::swap(&mut rows, &mut self.members);
        let ghost before = rows@;
        let ghost info: MemberInfo = (opt_str(username), first_name@, seen_at@);
        let name = match username {
            Some(u) => Some(owned(u)),
            None => None,
        };
        assert(opt_view(name) == opt_str(username));
        let row = MemberRow { chat, user, username: name, first_name: owned(first_name), last_seen: owned(seen_at) };
        let mut found: Option<usize> = None;
        let mut i: usize = 0;
        while i < rows.len()
            invariant
                i <= rows.len(),
                rows@ == before,
                found is None ==> forall|j: int| 0 <= j < i ==> #[trigger] member_pairs(rows@)[j].0 != (chat, user),
                found matches Some(at) ==> at < rows.len() && member_pairs(rows@)[at as int].0 == (chat, user),
            decreases rows.len() - i,
        {
            if found.is_none() && rows[i].chat == chat && rows[i].user == user {
                found = Some(i);
            }
            i = i + 1;
        }
        match found {
            Some(at) => {
                rows.set(at, row);
                proof {
                    assert(member_pairs(rows@)[at as int] == ((chat, user), info));
                    assert(member_pairs(rows@) =~= member_pairs(before).update(at as int, (member_pairs(before)[at as int].0, info)));
                    lemma_map_update(member_pairs(before), at as int, info);
                }
            },
            None => {
                rows.push(row);
                proof {
                    crate::table::lemma_lookup_absent(member_pairs(before), (chat, user));
                    assert(member_pairs(rows@) =~= member_pairs(before).push(((chat, user), info)));
                    crate::table::lemma_push_distinct(member_pairs(before), ((chat, user), info));
                    lemma_map_push(member_pairs(before), ((chat, user), info));
                }
            },
        }
        self.members = rows;
    }

    fn find_member(&self, chat: i64, user: i64) -> (r: Option<usize>)
        ensures
            r matches Some(at) ==> at < self.members@.len() && self.member_map().contains_key((chat, user))
                && self.member_map()[(chat, user)] == member_pairs(self.members@)[at as int].1,
            r is None ==> !self.member_map().contains_key((chat, user)),
    {
        proof {
            use_type_invariant(self);
        }
        let mut i: usize = 0;
        while i < self.members.len()
            invariant
                i <= self.members.len(),
                distinct_keys(member_pairs(self.members@)),
                forall|j: int| 0 <= j < i ==> #[trigger] member_pairs(self.members@)[j].0 != (chat, user),
            decreases self.members.len() - i,
        {
            if self.members[i].chat == chat && self.members[i].user == user {
                proof {
                    lemma_map_index(member_pairs(self.members@), i as int);
                }
                return Some(i);
            }
            i = i + 1;
        }
        proof {
            lemma_map_absent(member_pairs(self.members@), (chat, user));
        }
        None
    }

    /// Returns the member behind the username, ignoring the case of ASCII
    /// letters.
    pub fn member_by_username(&self, chat: i64, username: &str) -> (r: Option<i64>)
        ensures
            r matches Some(user) ==> goes_by(self.member_map(), chat, user, username@),
            r is None ==> forall|user: i64| !goes_by(self.member_map(), chat, user, username@),
    {
        proof {
            use_type_invariant(self);
        }
        let wanted = chars_of(username);
        let ghost pairs = member_pairs(self.members@);
        let mut i: usize = 0;
        while i < self.members.len()
            invariant
                i <= self.members.len(),
                pairs == member_pairs(self.members@),
                distinct_keys(pairs),
                wanted@ == username@,
                forall|j: int| 0 <= j < i ==> !(#[trigger] pairs[j].0.0 == chat && name_matches(pairs[j].1.0, username@)),
            decreases self.members.len() - i,
        {
            if self.members[i].chat == chat {
                if let Some(name) = &self.members[i].username {
                    let got = chars_of(name.as_str());
                    if eq_ignore_ascii_case(got.as_slice(), wanted.as_slice()) {
                        proof {
                            lemma_map_index(pairs, i as int);
                        }
                        return Some(self.members[i].user);
                    }
                }
            }
            i = i + 1;
        }
        proof {
            assert forall|user: i64| !goes_by(self.member_map(), chat, user, username@) by {
                if self.member_map().contains_key((chat, user)) {
                    lemma_map_key(pairs, (chat, user));
                    let j = choose|j: int| 0 <= j < pairs.len() && #[trigger] pairs[j].0 == (chat, user) && pairs[j].1 == self.member_map()[(chat, user)];
                    assert(pairs[j].0.0 == chat);
                }
            }
        }
        None
    }

    /// Returns the username of the member, when they have one.
    pub fn member_username(&self, chat: i64, user: i64) -> (r: Option<String>)
        ensures
            opt_view(r) == if self.member_map().contains_key((chat, user)) { self.member_map()[(chat, user)].0 } else { None },
    {
        match self.find_member(chat, user) {
            Some(at) => self.members[at].username.clone(),
            None => None,
        }
    }

    /// Tells whether the chat has a member row for the given user.
    pub fn is_member(&self, chat: i64, user: i64) -> (r: bool)
        ensures
            r == self.member_map().contains_key((chat, user)),
    {
        self.find_member(chat, user).is_some()
    }

    /// Returns the member's first name.
    pub fn member_name(&self, chat: i64, user: i64) -> (r: Option<String>)
        ensures
            opt_view(r) == if self.member_map().contains_key((chat, user)) { Some(self.member_map()[(chat, user)].1) } else { None },
    {
        match self.find_member(chat, user) {
            Some(at) => Some(self.members[at].first_name.clone()),
            None => None,
        }
    }

    /// Returns the members of the chat last seen at or after the given
    /// moment, comparing the recorded texts as SQLite compares text.
    pub fn active_members(&self, chat: i64, since: &str) -> (r: Vec<Member>)
        ensures
            forall|i: int| 0 <= i < r@.len() ==> #[trigger] is_active(self.member_map(), chat, r@[i].user, since@)
                && r@[i].name@ == self.member_map()[(chat, r@[i].user)].1,
            forall|user: i64| is_active(self.member_map(), chat, user, since@) ==> exists|i: int| 0 <= i < r@.len() && #[trigger] r@[i].user == user,
            forall|i: int, j: int| 0 <= i < j < r@.len() ==> r@[i].user != r@[j].user,
    {
        proof {
            use_type_invariant(self);
        }
        let ghost pairs = member_pairs(self.members@);
        let ghost m = self.member_map();
        let mut r: Vec<Member> = Vec::new();
        let mut i: usize = 0;
        while i < self.members.len()
            invariant
                i <= self.members.len(),
                pairs == member_pairs(self.members@),
                m == self.member_map(),
                m == as_map(pairs),
                distinct_keys(pairs),
                forall|k: int| 0 <= k < r@.len() ==> #[trigger] is_active(m, chat, r@[k].user, since@)
                    && r@[k].name@ == m[(chat, r@[k].user)].1,
                forall|k: int| #![trigger r@[k]] 0 <= k < r@.len() ==> exists|j: int| 0 <= j < i && #[trigger] pairs[j].0 == (chat, r@[k].user),
                forall|j: int| 0 <= j < i && #[trigger] pairs[j].0.0 == chat && is_active(m, chat, pairs[j].0.1, since@) ==> exists|k: int| 0 <= k < r@.len() && #[trigger] r@[k].user == pairs[j].0.1,
                forall|a: int, b: int| 0 <= a < b < r@.len() ==> r@[a].user != r@[b].user,
            decreases self.members.len() - i,
        {
            proof {
                lemma_map_index(pairs, i as int);
                assert(m[pairs[i as int].0] == pairs[i as int].1);
            }
            let ghost r_before = r@;
            if self.members[i].chat == chat && !str_less(self.members[i].last_seen.as_str(), since) {
                let ghost before = r@;
                proof {
                    assert forall|k: int| 0 <= k < before.len() implies before[k].user != self.members@[i as int].user by {
                        let j = choose|j: int| 0 <= j < i && #[trigger] pairs[j].0 == (chat, before[k].user);
                        assert(pairs[j].0 != pairs[i as int].0);
                    }
                }
                r.push(Member { user: self.members[i].user, name: self.members[i].first_name.clone() });
                proof {
                    assert(r@[before.len() as int].user == pairs[i as int].0.1);
                    assert forall|j: int| 0 <= j < i + 1 && #[trigger] pairs[j].0.0 == chat && is_active(m, chat, pairs[j].0.1, since@) implies exists|k: int| 0 <= k < r@.len() && #[trigger] r@[k].user == pairs[j].0.1 by {
                        if j < i {
                            let k = choose|k: int| 0 <= k < before.len() && #[trigger] before[k].user == pairs[j].0.1;
                            assert(r@[k] == before[k]);
                        } else {
                            assert(r@[before.len() as int].user == pairs[j].0.1);
                        }
                    }
                    assert forall|k: int| #![trigger r@[k]] 0 <= k < r@.len() implies exists|j: int| 0 <= j < i + 1 && #[trigger] pairs[j].0 == (chat, r@[k].user) by {
                        if k < before.len() {
                            assert(r@[k] == before[k]);
                        } else {
                            assert(pairs[i as int].0 == (chat, r@[k].user));
                        }
                    }
                }
            } else {
                proof {
                    assert forall|j: int| 0 <= j < i + 1 && #[trigger] pairs[j].0.0 == chat && is_active(m, chat, pairs[j].0.1, since@) implies exists|k: int| 0 <= k < r@.len() && #[trigger] r@[k].user == pairs[j].0.1 by {
                        if j == i {
                            assert(pairs[i as int].1.2 == self.members@[i as int].last_seen@);
                        }
                    }
                }
            }
            i = i + 1;
        }
        proof {
            assert forall|user: i64| is_active(m, chat, user, since@) implies exists|k: int| 0 <= k < r@.len() && #[trigger] r@[k].user == user by {
                lemma_map_key(pairs, (chat, user));
                let j = choose|j: int| 0 <= j < pairs.len() && #[trigger] pairs[j].0 == (chat, user) && pairs[j].1 == m[(chat, user)];
                assert(pairs[j].0.0 == chat);
            }
        }
        r
    }

    // ----- achievements -----

    fn find_achievement(&self, chat: i64, user: i64, code: &str) -> (r: Option<usize>)
        ensures
            r matches Some(at) ==> at < self.achievements@.len() && self.achievement_map().contains_key((chat, user, code@))
                && self.achievement_map()[(chat, user, code@)] == achievement_pairs(self.achievements@)[at as int].1,
            r is None ==> !self.achievement_map().contains_key((chat, user, code@)),
            r is None ==> crate::table::lookup(achievement_pairs(self.achievements@), (chat, user, code@)) is None,
    {
        proof {
            use_type_invariant(self);
        }
        let mut i: usize = 0;
        while i < self.achievements.len()
            invariant
                i <= self.achievements.len(),
                distinct_keys(achievement_pairs(self.achievements@)),
                forall|j: int| 0 <= j < i ==> #[trigger] achievement_pairs(self.achievements@)[j].0 != (chat, user, code@),
            decreases self.achievements.len() - i,
        {
            if self.achievements[i].chat == chat && self.achievements[i].user == user && same_text(self.achievements[i].code.as_str(), code) {
                proof {
                    lemma_map_index(achievement_pairs(self.achievements@), i as int);
                }
                return Some(i);
            }
            i = i + 1;
        }
        proof {
            crate::table::lemma_lookup_absent(achievement_pairs(self.achievements@), (chat, user, code@));
        }
        None
    }

    /// Gives the achievement to the member, telling whether it was new.
    pub fn unlock(&mut self, chat: i64, user: i64, code: &str, at: &str) -> (r: bool)
        ensures
            r == !old(self).achievement_map().contains_key((chat, user, code@)),
            final(self).achievement_map() == if r {
                old(self).achievement_map().insert((chat, user, code@), at@)
            } else {
                old(self).achievement_map()
            },
            final(self).same_except(*old(self), set![Part::Achievements]),
    {
        if self.find_achievement(chat, user, code).is_some() {
            return false;
        }
        proof {
            use_type_invariant(&*self);
        }
        let mut rows: Vec<AchievementRow> = Vec::new();
        std::mem::swap(&mut rows, &mut self.achievements);
        let ghost before = rows@;
        rows.push(AchievementRow { chat, user, code: owned(code), unlocked_at: owned(at) });
        proof {
            assert(achievement_pairs(rows@) =~= achievement_pairs(before).push(((chat, user, code@), at@)));
            crate::table::lemma_push_distinct(achievement_pairs(before), ((chat, user, code@), at@));
            lemma_map_push(achievement_pairs(before), ((chat, user, code@), at@));
        }
        self.achievements = rows;
        true
    }

    /// Returns the codes of the achievements the member already has.
    pub fn owned(&self, chat: i64, user: i64) -> (r: Vec<String>)
        ensures
            forall|code: Seq<char>| self.achievement_map().contains_key((chat, user, code)) <==> exists|i: int| 0 <= i < r@.len() && #[trigger] r@[i]@ == code,
            forall|i: int, j: int| 0 <= i < j < r@.len() ==> r@[i]@ != r@[j]@,
    {
        proof {
            use_type_invariant(self);
        }
        let ghost pairs = achievement_pairs(self.achievements@);
        let ghost keep = |k: (i64, i64, Seq<char>)| k.0 == chat && k.1 == user;
        let ghost f = |p: ((i64, i64, Seq<char>), Seq<char>)| keep(p.0);
        let mut r: Vec<String> = Vec::new();
        let mut i: usize = 0;
        while i < self.achievements.len()
            invariant
                i <= self.achievements.len(),
                pairs == achievement_pairs(self.achievements@),
                distinct_keys(pairs),
                keep == (|k: (i64, i64, Seq<char>)| k.0 == chat && k.1 == user),
                f == (|p: ((i64, i64, Seq<char>), Seq<char>)| keep(p.0)),
                r@.map_values(|c: String| c@) == pairs.take(i as int).filter(f).map_values(|p: ((i64, i64, Seq<char>), Seq<char>)| p.0.2),
            decreases self.achievements.len() - i,
        {
            let ghost before = r@;
            if self.achievements[i].chat == chat && self.achievements[i].user == user {
                r.push(self.achievements[i].code.clone());
            }
            proof {
                let g = |p: ((i64, i64, Seq<char>), Seq<char>)| p.0.2;
                let prev = pairs.take(i as int).filter(f);
                assert(pairs.take(i + 1).drop_last() =~= pairs.take(i as int));
                assert(pairs.take(i + 1).last() == pairs[i as int]);
                assert(pairs.take(i + 1).filter(f) == if f(pairs[i as int]) { prev.push(pairs[i as int]) } else { prev }) by {
                    reveal_with_fuel(Seq::filter, 1);
                }
                if f(pairs[i as int]) {
                    assert(prev.push(pairs[i as int]).map_values(g) =~= prev.map_values(g).push(g(pairs[i as int])));
                    assert(r@ =~= before.push(self.achievements@[i as int].code));
                    assert(r@.map_values(|c: String| c@) =~= before.map_values(|c: String| c@).push(self.achievements@[i as int].code@));
                }
            }
            i = i + 1;
        }
        proof {
            assert(pairs.take(i as int) =~= pairs);
            let filtered = pairs.filter(f);
            crate::table::lemma_filter_distinct(pairs, keep);
            broadcast use vstd::seq_lib::group_filter_ensures;
            assert forall|k: int| 0 <= k < r@.len() implies #[trigger] r@[k]@ == filtered[k].0.2 && filtered[k].0 == (chat, user, r@[k]@) by {
                assert(r@.map_values(|c: String| c@)[k] == r@[k]@);
                assert(f(filtered[k]));
            }
            assert forall|code: Seq<char>| self.achievement_map().contains_key((chat, user, code)) <==> exists|k: int| 0 <= k < r@.len() && #[trigger] r@[k]@ == code by {
                crate::table::lemma_lookup_filter(pairs, keep, (chat, user, code));
                if self.achievement_map().contains_key((chat, user, code)) {
                    lemma_map_key(filtered, (chat, user, code));
                    let k = choose|k: int| 0 <= k < filtered.len() && #[trigger] filtered[k].0 == (chat, user, code) && filtered[k].1 == as_map(filtered)[(chat, user, code)];
                    assert(r@[k]@ == code);
                }
                if exists|k: int| 0 <= k < r@.len() && #[trigger] r@[k]@ == code {
                    let k = choose|k: int| 0 <= k < r@.len() && #[trigger] r@[k]@ == code;
                    lemma_map_index(filtered, k);
                }
            }
            assert forall|a: int, b: int| 0 <= a < b < r@.len() implies r@[a]@ != r@[b]@ by {
                assert(r@[a]@ == filtered[a].0.2 && filtered[a].0 == (chat, user, r@[a]@));
                assert(r@[b]@ == filtered[b].0.2 && filtered[b].0 == (chat, user, r@[b]@));
            }
        }
        r
    }

    /// Returns the moment the member unlocked the achievement, if they have it.
    pub fn unlocked_at(&self, chat: i64, user: i64, code: &str) -> (r: Option<String>)
        ensures
            opt_view(r) == if self.achievement_map().contains_key((chat, user, code@)) {
                Some(self.achievement_map()[(chat, user, code@)])
            } else {
                None
            },
    {
        match self.find_achievement(chat, user, code) {
            Some(at) => Some(self.achievements[at].unlocked_at.clone()),
            None => None,
        }
    }

    // ----- message owners -----

    /// Returns who wrote the message and which quote it carries.
    pub fn message_owner(&self, chat: i64, message: i32) -> (r: Option<MessageOwner>)
        ensures
            r == if self.owner_map().contains_key((chat, message)) { Some(self.owner_map()[(chat, message)]) } else { None },
    {
        proof {
            use_type_invariant(self);
        }
        let mut i: usize = 0;
        while i < self.owners.len()
            invariant
                i <= self.owners.len(),
                distinct_keys(owner_pairs(self.owners@)),
                forall|j: int| 0 <= j < i ==> #[trigger] owner_pairs(self.owners@)[j].0 != (chat, message),
            decreases self.owners.len() - i,
        {
            if self.owners[i].chat == chat && self.owners[i].message == message {
                proof {
                    lemma_map_index(owner_pairs(self.owners@), i as int);
                }
                return Some(MessageOwner { user: self.owners[i].user, quote: self.owners[i].quote });
            }
            i = i + 1;
        }
        proof {
            lemma_map_absent(owner_pairs(self.owners@), (chat, message));
        }
        None
    }

    /// Records who wrote the message and, when given, which quote it carries.
    ///
    /// Writing the same message again refreshes the author and attaches a
    /// quote, but never clears a quote that is already attached. Only the
    /// newest messages of each chat are kept.
    pub fn remember_message(&mut self, chat: i64, message: i32, user: i64, quote: Option<i64>)
        ensures
            final(self).owner_map() == windowed(
                old(self).owner_map().insert((chat, message), MessageOwner {
                    user,
                    quote: match quote {
                        Some(q) => Some(q),
                        None => if old(self).owner_map().contains_key((chat, message)) {
                            old(self).owner_map()[(chat, message)].quote
                        } else {
                            None
                        },
                    },
                }),
                chat,
            ),
            final(self).same_except(*old(self), set![Part::Owners]),
            old(self).owner_map().contains_key((chat, message)) ==> final(self).owner_map()
                == after_write(old(self).owner_map(), chat, message, user, quote),
    {
        proof {
            use_type_invariant(&*self);
            crate::table::lemma_map_finite(owner_pairs(self.owners@));
        }
        let ghost old_owners = self.owner_map();
        proof {
            lemma_remember_within(old_owners, (chat, message), MessageOwner {
                user,
                quote: match quote {
                    Some(q) => Some(q),
                    None => if old_owners.contains_key((chat, message)) { old_owners[(chat, message)].quote } else { None },
                },
            });
        }
        let mut rows: Vec<OwnerRow> = Vec::new();
        std::mem::swap(&mut rows, &mut self.owners);
        let ghost before = rows@;
        let ghost old_map = as_map(owner_pairs(before));
        let mut i: usize = 0;
        let mut found = false;
        while i < rows.len() && !found
            invariant
                i <= rows.len(),
                rows@ == before,
                found ==> i < rows.len() && owner_pairs(rows@)[i as int].0 == (chat, message),
                !found ==> forall|j: int| 0 <= j < i ==> #[trigger] owner_pairs(rows@)[j].0 != (chat, message),
            decreases rows.len() - i, if found { 0int } else { 1int },
        {
            if rows[i].chat == chat && rows[i].message == message {
                found = true;
            } else {
                i = i + 1;
            }
        }
        let ghost kept_quote = match quote {
            Some(q) => Some(q),
            None => if old_map.contains_key((chat, message)) { old_map[(chat, message)].quote } else { None },
        };
        if found {
            proof {
                lemma_map_index(owner_pairs(before), i as int);
            }
            let attached = match quote {
                Some(q) => Some(q),
                None => rows[i].quote,
            };
            rows.set(i, OwnerRow { chat, message, user, quote: attached });
            proof {
                assert(owner_pairs(rows@) =~= owner_pairs(before).update(i as int, (owner_pairs(before)[i as int].0, MessageOwner { user, quote: kept_quote })));
                lemma_map_update(owner_pairs(before), i as int, MessageOwner { user, quote: kept_quote });
            }
        } else {
            rows.push(OwnerRow { chat, message, user, quote });
            proof {
                lemma_map_absent(owner_pairs(before), (chat, message));
                crate::table::lemma_lookup_absent(owner_pairs(before), (chat, message));
                assert(owner_pairs(rows@) =~= owner_pairs(before).push(((chat, message), MessageOwner { user, quote: kept_quote })));
                crate::table::lemma_push_distinct(owner_pairs(before), ((chat, message), MessageOwner { user, quote: kept_quote }));
                lemma_map_push(owner_pairs(before), ((chat, message), MessageOwner { user, quote: kept_quote }));
            }
        }
        let ghost upserted = as_map(owner_pairs(rows@));
        assert(upserted == old_map.insert((chat, message), MessageOwner { user, quote: kept_quote }));
        let kept = keep_newest(rows, chat);
        self.owners = kept;
    }
}

/// How many messages of the chat have a larger identifier than `message`.
fn count_newer(rows: &Vec<OwnerRow>, chat: i64, message: i32) -> (r: usize)
    requires
        distinct_keys(owner_pairs(rows@)),
    ensures
        r == newer_count(as_map(owner_pairs(rows@)), chat, message),
{
    let ghost pairs = owner_pairs(rows@);
    let ghost q = newer_than(chat, message);
    let ghost f = |p: ((i64, i32), MessageOwner)| q(p.0);
    let mut count: usize = 0;
    let mut i: usize = 0;
    while i < rows.len()
        invariant
            i <= rows.len(),
            pairs == owner_pairs(rows@),
            f == (|p: ((i64, i32), MessageOwner)| q(p.0)),
            q == newer_than(chat, message),
            count == pairs.take(i as int).filter(f).len(),
            count <= i,
        decreases rows.len() - i,
    {
        proof {
            reveal_with_fuel(Seq::filter, 1);
            assert(pairs.take(i + 1).drop_last() =~= pairs.take(i as int));
        }
        if rows[i].chat == chat && rows[i].message > message {
            count = count + 1;
        }
        i = i + 1;
    }
    proof {
        assert(pairs.take(rows.len() as int) =~= pairs);
        assert(pairs.take(i as int) =~= pairs);
        assert(count == pairs.filter(f).len());
        lemma_filter_count(pairs, q);
        assert(pairs.filter(f).len() == as_map(pairs).dom().filter(q).len());
        assert(count == newer_count(as_map(pairs), chat, message));
    }
    count
}

/// Keeps the messages of other chats and the newest messages of this chat.
fn keep_newest(rows: Vec<OwnerRow>, chat: i64) -> (r: Vec<OwnerRow>)
    requires
        distinct_keys(owner_pairs(rows@)),
    ensures
        distinct_keys(owner_pairs(r@)),
        as_map(owner_pairs(r@)) == windowed(as_map(owner_pairs(rows@)), chat),
{
    let ghost pairs = owner_pairs(rows@);
    let ghost m = as_map(pairs);
    let ghost keep = |k: (i64, i32)| k.0 != chat || newer_count(m, chat, k.1) < REMEMBERED_PER_CHAT;
    let ghost f = |p: ((i64, i32), MessageOwner)| keep(p.0);
    let mut kept: Vec<OwnerRow> = Vec::new();
    let mut i: usize = 0;
    while i < rows.len()
        invariant
            i <= rows.len(),
            pairs == owner_pairs(rows@),
            distinct_keys(pairs),
            m == as_map(pairs),
            keep == (|k: (i64, i32)| k.0 != chat || newer_count(m, chat, k.1) < REMEMBERED_PER_CHAT),
            f == (|p: ((i64, i32), MessageOwner)| keep(p.0)),
            owner_pairs(kept@) == pairs.take(i as int).filter(f),
        decreases rows.len() - i,
    {
        let stays = rows[i].chat != chat || count_newer(&rows, chat, rows[i].message) < REMEMBERED_PER_CHAT;
        let ghost before = kept@;
        if stays {
            kept.push(OwnerRow { chat: rows[i].chat, message: rows[i].message, user: rows[i].user, quote: rows[i].quote });
            assert(owner_pairs(kept@) =~= owner_pairs(before).push(pairs[i as int]));
        }
        proof {
            reveal_with_fuel(Seq::filter, 1);
            assert(pairs.take(i + 1).drop_last() =~= pairs.take(i as int));
        }
        i = i + 1;
    }
    proof {
        assert(pairs.take(rows.len() as int) =~= pairs);
        crate::table::lemma_filter_distinct(pairs, keep);
        assert forall|k: (i64, i32)| #![trigger as_map(owner_pairs(kept@)).contains_key(k)] as_map(owner_pairs(kept@)).contains_key(k) == windowed(m, chat).contains_key(k) by {
            crate::table::lemma_lookup_filter(pairs, keep, k);
        }
        assert forall|k: (i64, i32)| #![trigger as_map(owner_pairs(kept@))[k]] as_map(owner_pairs(kept@)).contains_key(k) ==> as_map(owner_pairs(kept@))[k] == windowed(m, chat)[k] by {
            crate::table::lemma_lookup_filter(pairs, keep, k);
        }
        assert(as_map(owner_pairs(kept@)) =~= windowed(m, chat));
    }
    kept
}


/// The weight a quote is drawn with: its score, capped at twenty, plus one,
/// times a roll below a thousand.
pub open spec fn draw_weight(score: i64, roll: u64) -> int {
    ((if score < 20 { score as int } else { 20 }) + 1) * roll
}

/// Index `i` holds the largest weight, and no earlier index holds as much.
pub open spec fn is_favourite(scores: Seq<i64>, rolls: Seq<u64>, i: int) -> bool {
    &&& 0 <= i < scores.len()
    &&& forall|j: int| 0 <= j < i ==> #[trigger] draw_weight(scores[j], rolls[j]) < draw_weight(scores[i], rolls[i])
    &&& forall|j: int| i < j < scores.len() ==> #[trigger] draw_weight(scores[j], rolls[j]) <= draw_weight(scores[i], rolls[i])
}

/// The position of the quote with the largest weight, the first one on a tie;
/// nothing when there are no quotes.
pub fn favourite(scores: &Vec<i64>, rolls: &Vec<u64>) -> (r: Option<usize>)
    requires
        scores@.len() == rolls@.len(),
        forall|i: int| 0 <= i < rolls@.len() ==> #[trigger] rolls@[i] < 1000,
    ensures
        r is None <==> scores@.len() == 0,
        r matches Some(i) ==> is_favourite(scores@, rolls@, i as int),
{
    if scores.len() == 0 {
        return None;
    }
    let mut best: usize = 0;
    let mut best_weight: i128 = weight(scores[0], rolls[0]);
    let mut i: usize = 1;
    while i < scores.len()
        invariant
            scores@.len() == rolls@.len(),
            forall|k: int| 0 <= k < rolls@.len() ==> #[trigger] rolls@[k] < 1000,
            1 <= i <= scores.len(),
            best < i,
            best_weight == draw_weight(scores@[best as int], rolls@[best as int]),
            forall|j: int| 0 <= j < best ==> #[trigger] draw_weight(scores@[j], rolls@[j]) < best_weight,
            forall|j: int| best < j < i ==> #[trigger] draw_weight(scores@[j], rolls@[j]) <= best_weight,
        decreases scores.len() - i,
    {
        let w = weight(scores[i], rolls[i]);
        if w > best_weight {
            best = i;
            best_weight = w;
        }
        i = i + 1;
    }
    Some(best)
}

fn weight(score: i64, roll: u64) -> (r: i128)
    requires
        roll < 1000,
    ensures
        r == draw_weight(score, roll),
{
    let capped: i128 = if score < 20 { score as i128 } else { 20 };
    assert(-0x8000_0000_0000_0000 <= capped <= 20);
    assert((capped + 1) * (roll as i128) <= 21 * 1000) by (nonlinear_arith)
        requires
            capped + 1 <= 21,
            0 <= roll < 1000,
            capped >= -0x8000_0000_0000_0000;
    assert((capped + 1) * (roll as i128) >= -0x8000_0000_0000_0000 * 1000) by (nonlinear_arith)
        requires
            capped + 1 >= -0x7fff_ffff_ffff_ffff,
            0 <= roll < 1000;
    (capped + 1) * (roll as i128)
}

impl Store {
    /// The identifier the next added quote gets.
    pub closed spec fn next_quote_id(self) -> i64 {
        self.next_quote
    }

    /// The identifier the next stored waiting message gets.
    pub closed spec fn next_waiting_id(self) -> i64 {
        self.next_waiting
    }

    /// Some quote of the source exists.
    pub open spec fn has_source(self, source: Seq<char>) -> bool {
        exists|i: int| 0 <= i < self.quote_list().len() && #[trigger] self.quote_list()[i].1 == source
    }

    /// The texts of the quotes of one source, in the order they were added.
    pub open spec fn source_texts(self, source: Seq<char>) -> Seq<Seq<char>> {
        self.quote_list().filter(of_source(source)).map_values(|q: QuoteInfo| q.2)
    }

    fn find_quote(&self, source: &str, text: &str) -> (r: Option<usize>)
        ensures
            r matches Some(at) ==> at < self.quote_list().len() && self.quote_list()[at as int].1 == source@ && self.quote_list()[at as int].2 == text@,
            r is None ==> forall|j: int| 0 <= j < self.quote_list().len() ==> (#[trigger] self.quote_list()[j].1, self.quote_list()[j].2) != (source@, text@),
    {
        let mut i: usize = 0;
        while i < self.quotes.len()
            invariant
                i <= self.quotes.len(),
                forall|j: int| 0 <= j < i ==> (#[trigger] self.quote_list()[j].1, self.quote_list()[j].2) != (source@, text@),
            decreases self.quotes.len() - i,
        {
            if same_text(self.quotes[i].source.as_str(), source) && same_text(self.quotes[i].text.as_str(), text) {
                return Some(i);
            }
            i = i + 1;
        }
        None
    }

    /// Adds a quote of the source unless the source already has that text,
    /// and returns the identifier of the quote with that text.
    ///
    /// Refuses, leaving the store as it was, when no identifier is left.
    pub fn add_quote(&mut self, source: &str, text: &str) -> (r: Result<i64, StoreError>)
        ensures
            final(self).same_except(*old(self), set![Part::Quotes]),
            match r {
                Ok(id) => if exists|i: int| 0 <= i < old(self).quote_list().len() && (#[trigger] old(self).quote_list()[i].1, old(self).quote_list()[i].2) == (source@, text@) {
                    &&& final(self).quote_list() == old(self).quote_list()
                    &&& final(self).next_quote_id() == old(self).next_quote_id()
                    &&& exists|i: int| 0 <= i < old(self).quote_list().len() && #[trigger] old(self).quote_list()[i] == (id, source@, text@, old(self).quote_list()[i].3)
                } else {
                    &&& id == old(self).next_quote_id()
                    &&& final(self).quote_list() == old(self).quote_list().push((id, source@, text@, 0))
                    &&& final(self).next_quote_id() == old(self).next_quote_id() + 1
                },
                Err(_) => {
                    &&& final(self).quote_list() == old(self).quote_list()
                    &&& old(self).next_quote_id() == i64::MAX
                },
            },
            old(self).next_quote_id() < i64::MAX ==> r is Ok,
            final(self).next_waiting_id() == old(self).next_waiting_id(),
    {
        proof {
            use_type_invariant(&*self);
        }
        match self.find_quote(source, text) {
            Some(at) => {
                return Ok(self.quotes[at].id);
            },
            None => {},
        }
        if self.next_quote == i64::MAX {
            return Err(StoreError::Overflow);
        }
        let id = self.next_quote;
        let mut rows: Vec<QuoteRow> = Vec::new();
        std::mem::swap(&mut rows, &mut self.quotes);
        let ghost before = quote_views(rows@);
        rows.push(QuoteRow { id, source: owned(source), text: owned(text), score: 0 });
        proof {
            assert(quote_views(rows@) =~= before.push((id, source@, text@, 0)));
            assert(quote_views(rows@).map_values(|q: QuoteInfo| q.0) =~= before.map_values(|q: QuoteInfo| q.0).push(id));
        }
        self.next_quote = id + 1;
        self.quotes = rows;
        Ok(id)
    }

    /// Puts back a quote read from storage with its identifier and score.
    ///
    /// Refuses, leaving the store as it was, when the identifier is not larger
    /// than every identifier held or the source already has that text.
    pub fn restore_quote(&mut self, id: i64, source: &str, text: &str, score: i64) -> (r: bool)
        ensures
            final(self).same_except(*old(self), set![Part::Quotes]),
            r == (id >= old(self).next_quote_id() && id < i64::MAX
                && forall|j: int| 0 <= j < old(self).quote_list().len() ==> (#[trigger] old(self).quote_list()[j].1, old(self).quote_list()[j].2) != (source@, text@)),
            r ==> final(self).quote_list() == old(self).quote_list().push((id, source@, text@, score)),
            !r ==> final(self).quote_list() == old(self).quote_list(),
            final(self).next_waiting_id() == old(self).next_waiting_id(),
    {
        proof {
            use_type_invariant(&*self);
        }
        if id < self.next_quote || id == i64::MAX {
            return false;
        }
        if self.find_quote(source, text).is_some() {
            return false;
        }
        let mut rows: Vec<QuoteRow> = Vec::new();
        std::mem::swap(&mut rows, &mut self.quotes);
        let ghost before = quote_views(rows@);
        rows.push(QuoteRow { id, source: owned(source), text: owned(text), score });
        proof {
            assert(quote_views(rows@) =~= before.push((id, source@, text@, score)));
            assert(quote_views(rows@).map_values(|q: QuoteInfo| q.0) =~= before.map_values(|q: QuoteInfo| q.0).push(id));
        }
        self.next_quote = id + 1;
        self.quotes = rows;
        true
    }

    /// Returns every stored quote of the given source.
    pub fn quotes(&self, source: &str) -> (r: Vec<String>)
        ensures
            r@.map_values(|t: String| t@) == self.source_texts(source@),
    {
        let ghost all = self.quote_list();
        let ghost f = of_source(source@);
        let ghost g = |q: QuoteInfo| q.2;
        let mut r: Vec<String> = Vec::new();
        let mut i: usize = 0;
        while i < self.quotes.len()
            invariant
                i <= self.quotes.len(),
                all == self.quote_list(),
                f == of_source(source@),
                g == (|q: QuoteInfo| q.2),
                r@.map_values(|t: String| t@) == all.take(i as int).filter(f).map_values(g),
            decreases self.quotes.len() - i,
        {
            let ghost before = r@;
            let ghost prev = all.take(i as int).filter(f);
            let keep = same_text(self.quotes[i].source.as_str(), source);
            if keep {
                r.push(self.quotes[i].text.clone());
            }
            proof {
                assert(all.take(i + 1).drop_last() =~= all.take(i as int));
                assert(all.take(i + 1).last() == all[i as int]);
                assert(all[i as int].1 == self.quotes@[i as int].source@);
                assert(all.take(i + 1).filter(f) == if f(all[i as int]) { prev.push(all[i as int]) } else { prev }) by {
                    reveal_with_fuel(Seq::filter, 1);
                }
                if keep {
                    assert(prev.push(all[i as int]).map_values(g) =~= prev.map_values(g).push(g(all[i as int])));
                    assert(r@.map_values(|t: String| t@) =~= before.map_values(|t: String| t@).push(self.quotes@[i as int].text@));
                }
            }
            i = i + 1;
        }
        assert(all.take(i as int) =~= all);
        r
    }

    /// Returns every quote of every source, which is the corpus the generator
    /// builds its chain from.
    pub fn all_quotes(&self) -> (r: Vec<String>)
        ensures
            r@.map_values(|t: String| t@) == self.quote_list().map_values(|q: QuoteInfo| q.2),
    {
        let mut r: Vec<String> = Vec::new();
        let mut i: usize = 0;
        while i < self.quotes.len()
            invariant
                i <= self.quotes.len(),
                r@.map_values(|t: String| t@) == self.quote_list().take(i as int).map_values(|q: QuoteInfo| q.2),
            decreases self.quotes.len() - i,
        {
            let ghost before = r@;
            r.push(self.quotes[i].text.clone());
            assert(self.quote_list()[i as int].2 == self.quotes@[i as int].text@);
            assert(self.quote_list().take(i + 1) =~= self.quote_list().take(i as int).push(self.quote_list()[i as int]));
            assert(r@.map_values(|t: String| t@) =~= before.map_values(|t: String| t@).push(self.quotes@[i as int].text@));
            i = i + 1;
            assert(r@.map_values(|t: String| t@) =~= self.quote_list().take(i as int).map_values(|q: QuoteInfo| q.2));
        }
        assert(self.quote_list().take(i as int) =~= self.quote_list());
        r
    }

    /// Adds to the score of the quote, which makes it come up more often; a
    /// quote that does not exist leaves the store as it was.
    pub fn bump_quote_score(&mut self, quote: i64) -> (r: Result<(), StoreError>)
        ensures
            final(self).same_except(*old(self), set![Part::Quotes]),
            final(self).next_quote_id() == old(self).next_quote_id(),
            final(self).next_waiting_id() == old(self).next_waiting_id(),
            scores(old(self).quote_list(), final(self).quote_list(), quote, r),
    {
        proof {
            use_type_invariant(&*self);
        }
        let ghost ids = self.quote_list().map_values(|q: QuoteInfo| q.0);
        let mut found: Option<usize> = None;
        let mut i: usize = 0;
        while i < self.quotes.len()
            invariant
                i <= self.quotes.len(),
                found is None ==> forall|j: int| 0 <= j < i ==> #[trigger] self.quote_list()[j].0 != quote,
                found matches Some(at) ==> at < self.quotes.len() && self.quote_list()[at as int].0 == quote,
            decreases self.quotes.len() - i,
        {
            if found.is_none() && self.quotes[i].id == quote {
                found = Some(i);
            }
            i = i + 1;
        }
        let at = match found {
            Some(at) => at,
            None => {
                assert(self.quote_list().map_values(scored(quote)) =~= self.quote_list());
                return Ok(());
            },
        };
        if self.quotes[at].score == i64::MAX {
            return Err(StoreError::Overflow);
        }
        let mut rows: Vec<QuoteRow> = Vec::new();
        std::mem::swap(&mut rows, &mut self.quotes);
        let ghost before = quote_views(rows@);
        let row = QuoteRow {
            id: rows[at].id,
            source: rows[at].source.clone(),
            text: rows[at].text.clone(),
            score: rows[at].score + 1,
        };
        rows.set(at, row);
        proof {
            assert forall|j: int| 0 <= j < before.len() && j != at implies #[trigger] before[j].0 != quote by {
                assert(ids[j] == before[j].0);
                assert(ids[at as int] == before[at as int].0);
            }
            assert(quote_views(rows@) =~= before.map_values(scored(quote)));
            assert(quote_views(rows@).map_values(|q: QuoteInfo| q.0) =~= before.map_values(|q: QuoteInfo| q.0));
            assert forall|a: int, b: int| 0 <= a < quote_views(rows@).len() && 0 <= b < quote_views(rows@).len() && a != b implies
                (#[trigger] quote_views(rows@)[a].1, quote_views(rows@)[a].2) != (#[trigger] quote_views(rows@)[b].1, quote_views(rows@)[b].2) by {
                assert((before[a].1, before[a].2) != (before[b].1, before[b].2));
            }
        }
        self.quotes = rows;
        Ok(())
    }

    /// Returns the score of the quote, nothing when it does not exist.
    pub fn quote_score(&self, quote: i64) -> (r: Option<i64>)
        ensures
            r matches Some(score) ==> exists|i: int| 0 <= i < self.quote_list().len() && #[trigger] self.quote_list()[i].0 == quote && self.quote_list()[i].3 == score,
            r is None ==> forall|i: int| 0 <= i < self.quote_list().len() ==> #[trigger] self.quote_list()[i].0 != quote,
    {
        let mut i: usize = 0;
        while i < self.quotes.len()
            invariant
                i <= self.quotes.len(),
                forall|j: int| 0 <= j < i ==> #[trigger] self.quote_list()[j].0 != quote,
            decreases self.quotes.len() - i,
        {
            if self.quotes[i].id == quote {
                assert(self.quote_list()[i as int].0 == quote);
                return Some(self.quotes[i].score);
            }
            i = i + 1;
        }
        None
    }

    /// The quotes of the source, their scores and their positions among all
    /// quotes.
    fn candidates(&self, source: &str) -> (r: (Vec<usize>, Vec<i64>))
        ensures
            r.0@.len() == r.1@.len(),
            forall|k: int| 0 <= k < r.0@.len() ==> #[trigger] r.0@[k] < self.quote_list().len()
                && self.quote_list()[r.0@[k] as int].1 == source@
                && self.quote_list()[r.0@[k] as int].3 == r.1@[k],
            (r.0@.len() == 0) <==> !self.has_source(source@),
    {
        let mut at: Vec<usize> = Vec::new();
        let mut scores: Vec<i64> = Vec::new();
        let mut i: usize = 0;
        while i < self.quotes.len()
            invariant
                i <= self.quotes.len(),
                at@.len() == scores@.len(),
                forall|k: int| 0 <= k < at@.len() ==> #[trigger] at@[k] < self.quote_list().len()
                    && self.quote_list()[at@[k] as int].1 == source@
                    && self.quote_list()[at@[k] as int].3 == scores@[k],
                (at@.len() == 0) <==> forall|j: int| 0 <= j < i ==> #[trigger] self.quote_list()[j].1 != source@,
            decreases self.quotes.len() - i,
        {
            if same_text(self.quotes[i].source.as_str(), source) {
                at.push(i);
                scores.push(self.quotes[i].score);
                assert(self.quote_list()[i as int].1 == source@);
            }
            i = i + 1;
        }
        (at, scores)
    }

    /// Returns a random quote of the given source together with its
    /// identifier, a quote with a higher score (up to twenty) coming up more
    /// often; nothing when the source has no quote.
    pub fn random_quote_with_id(&self, source: &str, rng: &mut StdRng) -> (r: Option<(i64, String)>)
        ensures
            r is None <==> !self.has_source(source@),
            r matches Some((id, text)) ==> exists|i: int| 0 <= i < self.quote_list().len()
                && #[trigger] self.quote_list()[i].0 == id
                && self.quote_list()[i].1 == source@
                && self.quote_list()[i].2 == text@,
    {
        let (at, scores) = self.candidates(source);
        let mut rolls: Vec<u64> = Vec::new();
        let mut k: usize = 0;
        while k < scores.len()
            invariant
                k <= scores.len(),
                rolls@.len() == k,
                forall|j: int| 0 <= j < rolls@.len() ==> #[trigger] rolls@[j] < 1000,
            decreases scores.len() - k,
        {
            let roll = random_index(rng, 1000);
            rolls.push(roll as u64);
            k = k + 1;
        }
        match favourite(&scores, &rolls) {
            Some(best) => {
                let i = at[best];
                assert(self.quote_list()[i as int].0 == self.quotes@[i as int].id);
                Some((self.quotes[i].id, self.quotes[i].text.clone()))
            },
            None => None,
        }
    }

    /// Returns a random quote of the given source, a quote with a higher score
    /// (up to twenty) coming up more often; nothing when the source has no
    /// quote.
    pub fn random_quote(&self, source: &str, rng: &mut StdRng) -> (r: Option<String>)
        ensures
            r is None <==> !self.has_source(source@),
            r matches Some(text) ==> exists|i: int| 0 <= i < self.quote_list().len()
                && #[trigger] self.quote_list()[i].1 == source@
                && self.quote_list()[i].2 == text@,
    {
        match self.random_quote_with_id(source, rng) {
            Some((_, text)) => Some(text),
            None => None,
        }
    }
}

/// The quote is of the source.
pub open spec fn of_source(source: Seq<char>) -> spec_fn(QuoteInfo) -> bool {
    |q: QuoteInfo| q.1 == source
}


/// Some quote of the source has the text.
pub open spec fn has_quote(list: Seq<QuoteInfo>, source: Seq<char>, text: Seq<char>) -> bool {
    exists|i: int| 0 <= i < list.len() && (#[trigger] list[i].1, list[i].2) == (source, text)
}

/// The quotes after adding the text to the source, unless it is there already.
pub open spec fn with_quote(list: Seq<QuoteInfo>, next: i64, source: Seq<char>, text: Seq<char>) -> Seq<QuoteInfo> {
    if has_quote(list, source, text) { list } else { list.push((next, source, text, 0)) }
}

/// Some waiting message is the message of the chat.
pub open spec fn is_waiting(list: Seq<WaitingInfo>, chat: i64, message: i32) -> bool {
    exists|i: int| 0 <= i < list.len() && (#[trigger] list[i].1, list[i].2) == (chat, message)
}

/// Position `i` holds the message sent first, the earliest stored on a tie.
pub open spec fn is_oldest(list: Seq<WaitingInfo>, i: int) -> bool {
    &&& 0 <= i < list.len()
    &&& forall|j: int| 0 <= j < i ==> text_lt(list[i].3, #[trigger] list[j].3)
    &&& forall|j: int| i < j < list.len() ==> !text_lt(#[trigger] list[j].3, list[i].3)
}

/// `after` is `before` once the message was offered to the waiting queue,
/// `r` telling whether it was new there.
pub open spec fn stores_message(
    before: Store,
    after: Store,
    chat: i64,
    message: i32,
    sent_at: Seq<char>,
    text: Seq<char>,
    r: Result<bool, StoreError>,
) -> bool {
    &&& after.same_except(before, set![Part::Waiting])
    &&& match r {
        Ok(true) => {
            &&& !is_waiting(before.waiting_list(), chat, message)
            &&& after.waiting_list() == before.waiting_list().push((before.next_waiting_id(), chat, message, sent_at, text))
            &&& after.next_waiting_id() == before.next_waiting_id() + 1
        },
        Ok(false) => {
            &&& is_waiting(before.waiting_list(), chat, message)
            &&& after.waiting_list() == before.waiting_list()
            &&& after.next_waiting_id() == before.next_waiting_id()
        },
        Err(_) => {
            &&& !is_waiting(before.waiting_list(), chat, message)
            &&& after.waiting_list() == before.waiting_list()
            &&& after.next_waiting_id() == before.next_waiting_id()
            &&& before.next_waiting_id() == i64::MAX
        },
    }
}

impl Store {
    /// How many messages wait to become quotes.
    pub fn waiting_len(&self) -> (r: usize)
        ensures
            r == self.waiting_list().len(),
    {
        self.waiting.len()
    }

    fn find_waiting(&self, chat: i64, message: i32) -> (r: Option<usize>)
        ensures
            r matches Some(at) ==> at < self.waiting_list().len() && (self.waiting_list()[at as int].1, self.waiting_list()[at as int].2) == (chat, message),
            r is None ==> !is_waiting(self.waiting_list(), chat, message),
    {
        let mut i: usize = 0;
        while i < self.waiting.len()
            invariant
                i <= self.waiting.len(),
                forall|j: int| 0 <= j < i ==> (#[trigger] self.waiting_list()[j].1, self.waiting_list()[j].2) != (chat, message),
            decreases self.waiting.len() - i,
        {
            if self.waiting[i].chat == chat && self.waiting[i].message == message {
                return Some(i);
            }
            i = i + 1;
        }
        None
    }

    /// Stores a message written by Matthew, telling whether it was a new one.
    ///
    /// Refuses, leaving the store as it was, when no identifier is left.
    pub fn store_matthew_message(&mut self, chat: i64, message: i32, sent_at: &str, text: &str) -> (r: Result<bool, StoreError>)
        ensures
            stores_message(*old(self), *final(self), chat, message, sent_at@, text@, r),
            old(self).next_waiting_id() < i64::MAX ==> r is Ok,
    {
        proof {
            use_type_invariant(&*self);
        }
        if self.find_waiting(chat, message).is_some() {
            return Ok(false);
        }
        if self.next_waiting == i64::MAX {
            return Err(StoreError::Overflow);
        }
        let id = self.next_waiting;
        let mut rows: Vec<WaitingRow> = Vec::new();
        std::mem::swap(&mut rows, &mut self.waiting);
        let ghost before = waiting_views(rows@);
        rows.push(WaitingRow { id, chat, message, sent_at: owned(sent_at), text: owned(text) });
        proof {
            assert(waiting_views(rows@) =~= before.push((id, chat, message, sent_at@, text@)));
            assert(waiting_views(rows@).map_values(|w: WaitingInfo| w.0) =~= before.map_values(|w: WaitingInfo| w.0).push(id));
        }
        self.next_waiting = id + 1;
        self.waiting = rows;
        Ok(true)
    }

    /// Takes the waiting message at the position out of the queue.
    fn take_waiting(&mut self, at: usize) -> (r: WaitingRow)
        requires
            at < old(self).waiting_list().len(),
        ensures
            final(self).same_except(*old(self), set![Part::Waiting]),
            final(self).waiting_list() == old(self).waiting_list().remove(at as int),
            (r.id, r.chat, r.message, r.sent_at@, r.text@) == old(self).waiting_list()[at as int],
            final(self).next_quote_id() == old(self).next_quote_id(),
            final(self).next_waiting_id() == old(self).next_waiting_id(),
    {
        proof {
            use_type_invariant(&*self);
        }
        let mut rows: Vec<WaitingRow> = Vec::new();
        std::mem::swap(&mut rows, &mut self.waiting);
        let ghost before = waiting_views(rows@);
        let row = rows.remove(at);
        proof {
            assert(waiting_views(rows@) =~= before.remove(at as int));
            assert(waiting_views(rows@).map_values(|w: WaitingInfo| w.0) =~= before.map_values(|w: WaitingInfo| w.0).remove(at as int));
            let ids = before.map_values(|w: WaitingInfo| w.0);
            let left = ids.remove(at as int);
            assert forall|a: int, b: int| 0 <= a < b < left.len() implies left[a] < left[b] by {
                let a2 = if a < at { a } else { a + 1 };
                let b2 = if b < at { b } else { b + 1 };
                assert(left[a] == ids[a2] && left[b] == ids[b2]);
            }
            let w = waiting_views(rows@);
            assert forall|a: int, b: int| 0 <= a < w.len() && 0 <= b < w.len() && a != b implies
                (#[trigger] w[a].1, w[a].2) != (#[trigger] w[b].1, w[b].2) by {
                let a2 = if a < at { a } else { a + 1 };
                let b2 = if b < at { b } else { b + 1 };
                assert(w[a] == before[a2] && w[b] == before[b2]);
            }
        }
        self.waiting = rows;
        row
    }

    /// Moves the message Matthew wrote first into the quotes of the given
    /// source and returns its text, or nothing when no message is waiting.
    ///
    /// Refuses, leaving the store as it was, when the quote would need an
    /// identifier and none is left.
    pub fn promote_oldest_matthew_message(&mut self, source: &str) -> (r: Result<Option<String>, StoreError>)
        ensures
            final(self).same_except(*old(self), set![Part::Quotes, Part::Waiting]),
            promotes_oldest(*old(self), *final(self), source@, r),
            old(self).next_quote_id() < i64::MAX ==> r is Ok,
    {
        if self.waiting.len() == 0 {
            return Ok(None);
        }
        let mut best: usize = 0;
        let mut i: usize = 1;
        while i < self.waiting.len()
            invariant
                1 <= i <= self.waiting.len(),
                best < i,
                forall|j: int| 0 <= j < best ==> text_lt(self.waiting_list()[best as int].3, #[trigger] self.waiting_list()[j].3),
                forall|j: int| best < j < i ==> !text_lt(#[trigger] self.waiting_list()[j].3, self.waiting_list()[best as int].3),
            decreases self.waiting.len() - i,
        {
            if str_less(self.waiting[i].sent_at.as_str(), self.waiting[best].sent_at.as_str()) {
                proof {
                    text_lt_transitive_all(self.waiting_list(), best as int, i as int);
                }
                best = i;
            }
            i = i + 1;
        }
        assert(is_oldest(self.waiting_list(), best as int));
        let text = self.waiting[best].text.clone();
        let present = self.find_quote(source, text.as_str()).is_some();
        if !present && self.next_quote == i64::MAX {
            return Err(StoreError::Overflow);
        }
        let _ = self.add_quote(source, text.as_str());
        let _ = self.take_waiting(best);
        Ok(Some(text))
    }

    /// Moves one named message Matthew wrote into the quotes of his own
    /// source, ahead of the queue, and returns the identifier of the quote;
    /// nothing when the message is no longer waiting.
    ///
    /// Refuses, leaving the store as it was, when the quote would need an
    /// identifier and none is left.
    pub fn promote_matthew_message(&mut self, chat: i64, message: i32) -> (r: Result<Option<i64>, StoreError>)
        ensures
            final(self).same_except(*old(self), set![Part::Quotes, Part::Waiting]),
            promotes(*old(self), *final(self), chat, message, r),
            old(self).next_quote_id() < i64::MAX ==> r is Ok,
    {
        let at = match self.find_waiting(chat, message) {
            Some(at) => at,
            None => {
                return Ok(None);
            },
        };
        let text = self.waiting[at].text.clone();
        let present = self.find_quote("matthew", text.as_str()).is_some();
        if !present && self.next_quote == i64::MAX {
            return Err(StoreError::Overflow);
        }
        let ghost before = self.quote_list();
        let id = match self.add_quote("matthew", text.as_str()) {
            Ok(id) => id,
            Err(_) => {
                return Err(StoreError::Overflow);
            },
        };
        proof {
            if has_quote(before, "matthew"@, text@) {
                let i = choose|i: int| 0 <= i < before.len() && #[trigger] before[i] == (id, "matthew"@, text@, before[i].3);
                assert(self.quote_list()[i] == (id, "matthew"@, text@, self.quote_list()[i].3));
            } else {
                assert(self.quote_list()[before.len() as int] == (id, "matthew"@, text@, 0i64));
            }
        }
        let _ = self.take_waiting(at);
        Ok(Some(id))
    }
}

/// With `i` sorting before `best`, everything `best` sorted before `i` sorts
/// before too.
proof fn text_lt_transitive_all(list: Seq<WaitingInfo>, best: int, i: int)
    requires
        0 <= best < i < list.len(),
        text_lt(list[i].3, list[best].3),
        forall|j: int| 0 <= j < best ==> text_lt(list[best].3, #[trigger] list[j].3),
        forall|j: int| best < j < i ==> !text_lt(#[trigger] list[j].3, list[best].3),
    ensures
        forall|j: int| 0 <= j < i ==> text_lt(list[i].3, #[trigger] list[j].3),
{
    assert forall|j: int| 0 <= j < i implies text_lt(list[i].3, #[trigger] list[j].3) by {
        if j < best {
            crate::chars::lemma_text_lt_transitive(list[i].3, list[best].3, list[j].3);
        } else if j > best {
            crate::chars::lemma_text_lt_total(list[j].3, list[best].3);
            if text_lt(list[best].3, list[j].3) {
                crate::chars::lemma_text_lt_transitive(list[i].3, list[best].3, list[j].3);
            }
        }
    }
}


/// A source that had a quote still has one after a quote is added, and the
/// source of the added quote has one.
proof fn lemma_keeps_source(before: Seq<QuoteInfo>, after: Seq<QuoteInfo>, source: Seq<char>, text: Seq<char>, other: Seq<char>)
    requires
        after == before || (exists|i: int| 0 <= i < before.len() && (#[trigger] before[i].1, before[i].2) == (source, text) && after == before)
            || (exists|id: i64| after == before.push((id, source, text, 0i64))),
        after == before ==> exists|i: int| 0 <= i < before.len() && (#[trigger] before[i].1, before[i].2) == (source, text),
    ensures
        (exists|i: int| 0 <= i < before.len() && #[trigger] before[i].1 == other) ==> exists|i: int| 0 <= i < after.len() && #[trigger] after[i].1 == other,
        exists|i: int| 0 <= i < after.len() && #[trigger] after[i].1 == source,
{
    if exists|i: int| 0 <= i < before.len() && #[trigger] before[i].1 == other {
        let i = choose|i: int| 0 <= i < before.len() && #[trigger] before[i].1 == other;
        if after != before {
            let id = choose|id: i64| after == before.push((id, source, text, 0i64));
            assert(after[i] == before[i]);
        }
    }
    if after == before {
        let i = choose|i: int| 0 <= i < before.len() && (#[trigger] before[i].1, before[i].2) == (source, text);
        assert(after[i].1 == source);
    } else {
        let id = choose|id: i64| after == before.push((id, source, text, 0i64));
        assert(after[before.len() as int].1 == source);
    }
}

impl Store {
    /// A store holding only the quotes every fresh database starts with.
    #[verifier::rlimit(30)]
    pub fn in_memory() -> (r: Self)
        ensures
            r.has_source(MATTHEW_SOURCE@),
            r.has_source(STREAM_SOURCE@),
            r.has_source(VINOGRAD_SOURCE@),
            r.stat_map() == Map::<(i64, i64, Seq<char>), i64>::empty(),
            r.member_map() == Map::<(i64, i64), MemberInfo>::empty(),
            r.state_map() == Map::<(i64, Seq<char>), i64>::empty(),
            r.achievement_map() == Map::<(i64, i64, Seq<char>), Seq<char>>::empty(),
            r.owner_map() == Map::<(i64, i32), MessageOwner>::empty(),
            r.chat_list() == Seq::<i64>::empty(),
            r.waiting_list() == Seq::<WaitingInfo>::empty(),
            r.next_waiting_id() == 1,
            1 <= r.next_quote_id() <= 13,
            r.quote_list().len() <= 12,
    {
        let mut r = Store::empty();
        let ghost before = r.quote_list();
        let _ = r.add_quote(MATTHEW_SOURCE, "Тебе никто не ответил. И мы потерпим.");
        proof {
            assert(r.next_quote_id() <= 2);
            lemma_keeps_source(before, r.quote_list(), MATTHEW_SOURCE@, "Тебе никто не ответил. И мы потерпим."@, MATTHEW_SOURCE@);
            lemma_keeps_source(before, r.quote_list(), MATTHEW_SOURCE@, "Тебе никто не ответил. И мы потерпим."@, STREAM_SOURCE@);
            lemma_keeps_source(before, r.quote_list(), MATTHEW_SOURCE@, "Тебе никто не ответил. И мы потерпим."@, VINOGRAD_SOURCE@);
        }
        let ghost before = r.quote_list();
        let _ = r.add_quote(MATTHEW_SOURCE, "Хорошо браток идем 1x1 с каждым 5 раундов по пол часа.");
        proof {
            assert(r.next_quote_id() <= 3);
            lemma_keeps_source(before, r.quote_list(), MATTHEW_SOURCE@, "Хорошо браток идем 1x1 с каждым 5 раундов по пол часа."@, MATTHEW_SOURCE@);
            lemma_keeps_source(before, r.quote_list(), MATTHEW_SOURCE@, "Хорошо браток идем 1x1 с каждым 5 раундов по пол часа."@, STREAM_SOURCE@);
            lemma_keeps_source(before, r.quote_list(), MATTHEW_SOURCE@, "Хорошо браток идем 1x1 с каждым 5 раундов по пол часа."@, VINOGRAD_SOURCE@);
        }
        let ghost before = r.quote_list();
        let _ = r.add_quote(MATTHEW_SOURCE, "у сатаника 9к, у меня 5600, чувствуете на каком я уровне?");
        proof {
            assert(r.next_quote_id() <= 4);
            lemma_keeps_source(before, r.quote_list(), MATTHEW_SOURCE@, "у сатаника 9к, у меня 5600, чувствуете на каком я уровне?"@, MATTHEW_SOURCE@);
            lemma_keeps_source(before, r.quote_list(), MATTHEW_SOURCE@, "у сатаника 9к, у меня 5600, чувствуете на каком я уровне?"@, STREAM_SOURCE@);
            lemma_keeps_source(before, r.quote_list(), MATTHEW_SOURCE@, "у сатаника 9к, у меня 5600, чувствуете на каком я уровне?"@, VINOGRAD_SOURCE@);
        }
        let ghost before = r.quote_list();
        let _ = r.add_quote(MATTHEW_SOURCE, "Я бы вмешался, но мне впн дороже.");
        proof {
            assert(r.next_quote_id() <= 5);
            lemma_keeps_source(before, r.quote_list(), MATTHEW_SOURCE@, "Я бы вмешался, но мне впн дороже."@, MATTHEW_SOURCE@);
            lemma_keeps_source(before, r.quote_list(), MATTHEW_SOURCE@, "Я бы вмешался, но мне впн дороже."@, STREAM_SOURCE@);
            lemma_keeps_source(before, r.quote_list(), MATTHEW_SOURCE@, "Я бы вмешался, но мне впн дороже."@, VINOGRAD_SOURCE@);
        }
        let ghost before = r.quote_list();
        let _ = r.add_quote(MATTHEW_SOURCE, "я с детства мечтал клонировать себя, чтобы в 5 в доту играть.");
        proof {
            assert(r.next_quote_id() <= 6);
            lemma_keeps_source(before, r.quote_list(), MATTHEW_SOURCE@, "я с детства мечтал клонировать себя, чтобы в 5 в доту играть."@, MATTHEW_SOURCE@);
            lemma_keeps_source(before, r.quote_list(), MATTHEW_SOURCE@, "я с детства мечтал клонировать себя, чтобы в 5 в доту играть."@, STREAM_SOURCE@);
            lemma_keeps_source(before, r.quote_list(), MATTHEW_SOURCE@, "я с детства мечтал клонировать себя, чтобы в 5 в доту играть."@, VINOGRAD_SOURCE@);
        }
        let ghost before = r.quote_list();
        let _ = r.add_quote(MATTHEW_SOURCE, "я петух в законе.");
        proof {
            assert(r.next_quote_id() <= 7);
            lemma_keeps_source(before, r.quote_list(), MATTHEW_SOURCE@, "я петух в законе."@, MATTHEW_SOURCE@);
            lemma_keeps_source(before, r.quote_list(), MATTHEW_SOURCE@, "я петух в законе."@, STREAM_SOURCE@);
            lemma_keeps_source(before, r.quote_list(), MATTHEW_SOURCE@, "я петух в законе."@, VINOGRAD_SOURCE@);
        }
        let ghost before = r.quote_list();
        let _ = r.add_quote(STREAM_SOURCE, "Стрим, тебе с потолка капает.");
        proof {
            assert(r.next_quote_id() <= 8);
            lemma_keeps_source(before, r.quote_list(), STREAM_SOURCE@, "Стрим, тебе с потолка капает."@, MATTHEW_SOURCE@);
            lemma_keeps_source(before, r.quote_list(), STREAM_SOURCE@, "Стрим, тебе с потолка капает."@, STREAM_SOURCE@);
            lemma_keeps_source(before, r.quote_list(), STREAM_SOURCE@, "Стрим, тебе с потолка капает."@, VINOGRAD_SOURCE@);
        }
        let ghost before = r.quote_list();
        let _ = r.add_quote(STREAM_SOURCE, "Сегодня без стрима, завтра тоже.");
        proof {
            assert(r.next_quote_id() <= 9);
            lemma_keeps_source(before, r.quote_list(), STREAM_SOURCE@, "Сегодня без стрима, завтра тоже."@, MATTHEW_SOURCE@);
            lemma_keeps_source(before, r.quote_list(), STREAM_SOURCE@, "Сегодня без стрима, завтра тоже."@, STREAM_SOURCE@);
            lemma_keeps_source(before, r.quote_list(), STREAM_SOURCE@, "Сегодня без стрима, завтра тоже."@, VINOGRAD_SOURCE@);
        }
        let ghost before = r.quote_list();
        let _ = r.add_quote(STREAM_SOURCE, "Донат пришёл, читаю вслух.");
        proof {
            assert(r.next_quote_id() <= 10);
            lemma_keeps_source(before, r.quote_list(), STREAM_SOURCE@, "Донат пришёл, читаю вслух."@, MATTHEW_SOURCE@);
            lemma_keeps_source(before, r.quote_list(), STREAM_SOURCE@, "Донат пришёл, читаю вслух."@, STREAM_SOURCE@);
            lemma_keeps_source(before, r.quote_list(), STREAM_SOURCE@, "Донат пришёл, читаю вслух."@, VINOGRAD_SOURCE@);
        }
        let ghost before = r.quote_list();
        let _ = r.add_quote(VINOGRAD_SOURCE, "Я бы тебе просто по твоей лысине вонючей c пыру въебал.");
        proof {
            assert(r.next_quote_id() <= 11);
            lemma_keeps_source(before, r.quote_list(), VINOGRAD_SOURCE@, "Я бы тебе просто по твоей лысине вонючей c пыру въебал."@, MATTHEW_SOURCE@);
            lemma_keeps_source(before, r.quote_list(), VINOGRAD_SOURCE@, "Я бы тебе просто по твоей лысине вонючей c пыру въебал."@, STREAM_SOURCE@);
            lemma_keeps_source(before, r.quote_list(), VINOGRAD_SOURCE@, "Я бы тебе просто по твоей лысине вонючей c пыру въебал."@, VINOGRAD_SOURCE@);
        }
        let ghost before = r.quote_list();
        let _ = r.add_quote(VINOGRAD_SOURCE, "Виноград сам себя не съест.");
        proof {
            assert(r.next_quote_id() <= 12);
            lemma_keeps_source(before, r.quote_list(), VINOGRAD_SOURCE@, "Виноград сам себя не съест."@, MATTHEW_SOURCE@);
            lemma_keeps_source(before, r.quote_list(), VINOGRAD_SOURCE@, "Виноград сам себя не съест."@, STREAM_SOURCE@);
            lemma_keeps_source(before, r.quote_list(), VINOGRAD_SOURCE@, "Виноград сам себя не съест."@, VINOGRAD_SOURCE@);
        }
        let ghost before = r.quote_list();
        let _ = r.add_quote(VINOGRAD_SOURCE, "Лысина сверкает, значит всё по плану.");
        proof {
            assert(r.next_quote_id() <= 13);
            lemma_keeps_source(before, r.quote_list(), VINOGRAD_SOURCE@, "Лысина сверкает, значит всё по плану."@, MATTHEW_SOURCE@);
            lemma_keeps_source(before, r.quote_list(), VINOGRAD_SOURCE@, "Лысина сверкает, значит всё по плану."@, STREAM_SOURCE@);
            lemma_keeps_source(before, r.quote_list(), VINOGRAD_SOURCE@, "Лысина сверкает, значит всё по плану."@, VINOGRAD_SOURCE@);
        }
        r
    }
}

/// The remembered messages once the message was written again: the author
/// refreshed and the quote attached, never cleared.
pub open spec fn after_write(m: Map<(i64, i32), MessageOwner>, chat: i64, message: i32, user: i64, quote: Option<i64>) -> Map<(i64, i32), MessageOwner> {
    m.insert((chat, message), MessageOwner {
        user,
        quote: match quote {
            Some(q) => Some(q),
            None => if m.contains_key((chat, message)) { m[(chat, message)].quote } else { None },
        },
    })
}

/// The remembered messages after recording who wrote the message and which
/// quote it carries: a known quote stays when none is given, and only the
/// newest messages of the chat are kept.
pub open spec fn after_remember(m: Map<(i64, i32), MessageOwner>, chat: i64, message: i32, user: i64, quote: Option<i64>) -> Map<(i64, i32), MessageOwner> {
    windowed(
        m.insert((chat, message), MessageOwner {
            user,
            quote: match quote {
                Some(q) => Some(q),
                None => if m.contains_key((chat, message)) { m[(chat, message)].quote } else { None },
            },
        }),
        chat,
    )
}

/// The quote with one more point of score when it is the given one.
pub open spec fn scored(quote: i64) -> spec_fn(QuoteInfo) -> QuoteInfo {
    |q: QuoteInfo| if q.0 == quote { (q.0, q.1, q.2, (q.3 + 1) as i64) } else { q }
}

/// Raising the score of the quote took its list from `before` to `after`:
/// the quote scores one more when its score is below the largest, or the
/// store refused because its score is already the largest.
pub open spec fn scores(before: Seq<QuoteInfo>, after: Seq<QuoteInfo>, quote: i64, r: Result<(), StoreError>) -> bool {
    match r {
        Ok(()) => {
            &&& after == before.map_values(scored(quote))
            &&& forall|i: int| 0 <= i < before.len() && #[trigger] before[i].0 == quote ==> before[i].3 < i64::MAX
        },
        Err(_) => after == before
            && exists|i: int| 0 <= i < before.len() && #[trigger] before[i].0 == quote && before[i].3 == i64::MAX,
    }
}

/// Promoting the message took the store from `before` to `after`: a message
/// no longer waiting changes nothing; a waiting one leaves the queue and its
/// text becomes (or already was) a quote of Matthew's, whose id is returned;
/// the store refuses when it has no quote id left.
pub open spec fn promotes(before: Store, after: Store, chat: i64, message: i32, r: Result<Option<i64>, StoreError>) -> bool {
    match r {
        Ok(None) => {
            &&& !is_waiting(before.waiting_list(), chat, message)
            &&& after.quote_list() == before.quote_list()
            &&& after.waiting_list() == before.waiting_list()
        },
        Ok(Some(id)) => exists|i: int| 0 <= i < before.waiting_list().len()
            && (#[trigger] before.waiting_list()[i].1, before.waiting_list()[i].2) == (chat, message) && {
            let text = before.waiting_list()[i].4;
            &&& after.waiting_list() == before.waiting_list().remove(i)
            &&& after.quote_list() == with_quote(before.quote_list(), before.next_quote_id(), "matthew"@, text)
            &&& exists|k: int| 0 <= k < after.quote_list().len() && #[trigger] after.quote_list()[k] == (id, "matthew"@, text, after.quote_list()[k].3)
        },
        Err(_) => {
            &&& after.quote_list() == before.quote_list()
            &&& after.waiting_list() == before.waiting_list()
            &&& before.next_quote_id() == i64::MAX
        },
    }
}

/// Promoting the oldest waiting message into the quotes of `source` took the
/// store from `before` to `after`: nothing waits and nothing changes, or the
/// message sent first leaves the queue and its text becomes (or already was)
/// a quote of the source; the store refuses when it has no quote id left.
pub open spec fn promotes_oldest(before: Store, after: Store, source: Seq<char>, r: Result<Option<String>, StoreError>) -> bool {
    match r {
        Ok(None) => {
            &&& before.waiting_list().len() == 0
            &&& after.quote_list() == before.quote_list()
        },
        Ok(Some(text)) => exists|i: int| #[trigger] is_oldest(before.waiting_list(), i) && {
            &&& text@ == before.waiting_list()[i].4
            &&& after.waiting_list() == before.waiting_list().remove(i)
            &&& after.quote_list() == with_quote(before.quote_list(), before.next_quote_id(), source, text@)
        },
        Err(_) => {
            &&& after.quote_list() == before.quote_list()
            &&& after.waiting_list() == before.waiting_list()
            &&& before.next_quote_id() == i64::MAX
        },
    }
}

/// The first name of the member when they are known.
pub open spec fn known_name(m: Map<(i64, i64), MemberInfo>, chat: i64, user: i64) -> Option<Seq<char>> {
    if m.contains_key((chat, user)) { Some(m[(chat, user)].1) } else { None }
}

/// The member owns at least one achievement in the chat.
pub open spec fn has_achievement(m: Map<(i64, i64, Seq<char>), Seq<char>>, chat: i64, user: i64) -> bool {
    exists|code: Seq<char>| #[trigger] m.contains_key((chat, user, code))
}

/// The codes of the achievements the member owns in the chat.
pub open spec fn owned_codes(m: Map<(i64, i64, Seq<char>), Seq<char>>, chat: i64, user: i64) -> Set<Seq<char>> {
    Set::new(|code: Seq<char>| m.contains_key((chat, user, code)))
}

/// `v` is when the member unlocked one of their achievements, and no other
/// was unlocked later (comparing the texts as SQLite does).
pub open spec fn is_latest(m: Map<(i64, i64, Seq<char>), Seq<char>>, chat: i64, user: i64, v: Seq<char>) -> bool {
    &&& exists|code: Seq<char>| #[trigger] m.contains_key((chat, user, code)) && m[(chat, user, code)] == v
    &&& forall|code: Seq<char>| #[trigger] m.contains_key((chat, user, code)) ==> !text_lt(v, m[(chat, user, code)])
}

/// When the member unlocked their latest achievement.
pub open spec fn latest_of(m: Map<(i64, i64, Seq<char>), Seq<char>>, chat: i64, user: i64) -> Seq<char> {
    choose|v: Seq<char>| is_latest(m, chat, user, v)
}

/// A count as a 64-bit integer, the largest one standing for any larger count.
pub open spec fn clamp_count(n: nat) -> i64 {
    if n <= i64::MAX { n as i64 } else { i64::MAX }
}

/// `r` ranks the members of the chat by the counter: each line is a member
/// whose counter is above zero with its value and first name, every such
/// member has a line, and the lines go from the highest value down, the
/// lower user first on a tie.
pub open spec fn is_ranking(s: Store, chat: i64, key: Seq<char>, r: Seq<Standing>) -> bool {
    &&& forall|i: int| 0 <= i < r.len() ==> {
        &&& #[trigger] s.stat_map().contains_key((chat, r[i].user, key))
        &&& r[i].count == s.stat_map()[(chat, r[i].user, key)]
        &&& r[i].count > 0
        &&& opt_view(r[i].name) == known_name(s.member_map(), chat, r[i].user)
    }
    &&& forall|user: i64| s.stat_map().contains_key((chat, user, key)) && s.stat_map()[(chat, user, key)] > 0
        ==> exists|i: int| 0 <= i < r.len() && #[trigger] r[i].user == user
    &&& forall|i: int, j: int| 0 <= i < j < r.len() ==> (#[trigger] r[i]).count > (#[trigger] r[j]).count
        || (r[i].count == r[j].count && r[i].user < r[j].user)
}

/// `r` ranks the members of the chat who own achievements: each line is
/// such a member with how many they own and their first name, every such
/// member has a line, and the lines go from the most achievements down, the
/// one who unlocked their latest first on a tie, then the lower user.
pub open spec fn is_leaderboard(s: Store, chat: i64, r: Seq<Standing>) -> bool {
    &&& forall|i: int| 0 <= i < r.len() ==> {
        &&& has_achievement(s.achievement_map(), chat, (#[trigger] r[i]).user)
        &&& r[i].count == clamp_count(owned_codes(s.achievement_map(), chat, r[i].user).len())
        &&& opt_view(r[i].name) == known_name(s.member_map(), chat, r[i].user)
    }
    &&& forall|user: i64| has_achievement(s.achievement_map(), chat, user)
        ==> exists|i: int| 0 <= i < r.len() && #[trigger] r[i].user == user
    &&& forall|i: int, j: int| 0 <= i < j < r.len() ==> ranks_before(
        ((#[trigger] r[i]).count, latest_of(s.achievement_map(), chat, r[i].user), r[i].user),
        ((#[trigger] r[j]).count, latest_of(s.achievement_map(), chat, r[j].user), r[j].user),
    )
}

/// Tells whether the list holds the value.
fn holds_user(v: &Vec<i64>, x: i64) -> (r: bool)
    ensures
        r == v@.contains(x),
{
    let mut i: usize = 0;
    while i < v.len()
        invariant
            i <= v.len(),
            forall|j: int| 0 <= j < i ==> v@[j] != x,
        decreases v.len() - i,
    {
        if v[i] == x {
            assert(v@[i as int] == x);
            return true;
        }
        i = i + 1;
    }
    false
}

impl Store {
    /// Returns the members of the chat ranked by the given counter, highest
    /// first and the lower user first on a tie, leaving out everyone whose
    /// counter is not above zero.
    pub fn ranking(&self, chat: i64, key: &str) -> (r: Vec<Standing>)
        ensures
            is_ranking(*self, chat, key@, r@),
    {
        proof {
            use_type_invariant(self);
        }
        let ghost pairs = stat_pairs(self.stats@);
        let ghost m = self.stat_map();
        let mut entries: Vec<Ranked> = Vec::new();
        let ghost mut rows: Seq<int> = Seq::empty();
        let mut i: usize = 0;
        while i < self.stats.len()
            invariant
                i <= self.stats.len(),
                pairs == stat_pairs(self.stats@),
                m == as_map(pairs),
                distinct_keys(pairs),
                in_rank_order(rank_keys(entries@)),
                rows.len() == entries@.len(),
                forall|k: int| 0 <= k < entries@.len() ==> {
                    &&& 0 <= #[trigger] rows[k] < i
                    &&& pairs[rows[k]].0 == (chat, entries@[k].user, key@)
                    &&& pairs[rows[k]].1 == entries@[k].count
                    &&& entries@[k].count > 0
                    &&& entries@[k].latest@ == Seq::<char>::empty()
                },
                forall|j: int| 0 <= j < i && (#[trigger] pairs[j]).0.0 == chat && pairs[j].0.2 == key@ && pairs[j].1 > 0
                    ==> exists|k: int| 0 <= k < rows.len() && rows[k] == j,
            decreases self.stats.len() - i,
        {
            if self.stats[i].chat == chat && same_text(self.stats[i].key.as_str(), key) && self.stats[i].value > 0 {
                let ghost before = entries@;
                let ghost old_rows = rows;
                proof {
                    assert forall|k: int| 0 <= k < before.len() implies #[trigger] before[k].user != self.stats@[i as int].user by {
                        assert(pairs[rows[k]].0 != pairs[i as int].0);
                    }
                }
                let x = Ranked { user: self.stats[i].user, count: self.stats[i].value, latest: String::new() };
                let p = insert_ranked(&mut entries, x);
                proof {
                    rows = old_rows.insert(p as int, i as int);
                    assert forall|k: int| 0 <= k < entries@.len() implies {
                        &&& 0 <= #[trigger] rows[k] < i + 1
                        &&& pairs[rows[k]].0 == (chat, entries@[k].user, key@)
                        &&& pairs[rows[k]].1 == entries@[k].count
                        &&& entries@[k].count > 0
                        &&& entries@[k].latest@ == Seq::<char>::empty()
                    } by {
                        if k < p {
                            assert(entries@[k] == before[k] && rows[k] == old_rows[k]);
                        } else if k > p {
                            assert(entries@[k] == before[k - 1] && rows[k] == old_rows[k - 1]);
                        }
                    }
                    assert forall|j: int| 0 <= j < i + 1 && (#[trigger] pairs[j]).0.0 == chat && pairs[j].0.2 == key@ && pairs[j].1 > 0
                        implies exists|k: int| 0 <= k < rows.len() && rows[k] == j by {
                        if j == i {
                            assert(rows[p as int] == j);
                        } else {
                            let k = choose|k: int| 0 <= k < old_rows.len() && old_rows[k] == j;
                            if k < p {
                                assert(rows[k] == j);
                            } else {
                                assert(rows[k + 1] == j);
                            }
                        }
                    }
                }
            }
            i = i + 1;
        }
        let mut r: Vec<Standing> = Vec::new();
        let mut k: usize = 0;
        while k < entries.len()
            invariant
                k <= entries.len(),
                r@.len() == k,
                forall|a: int| 0 <= a < k ==> (#[trigger] r@[a]).user == entries@[a].user && r@[a].count == entries@[a].count
                    && opt_view(r@[a].name) == known_name(self.member_map(), chat, entries@[a].user),
            decreases entries.len() - k,
        {
            let name = self.member_name(chat, entries[k].user);
            r.push(Standing { user: entries[k].user, name, count: entries[k].count });
            k = k + 1;
        }
        proof {
            assert forall|a: int| 0 <= a < r@.len() implies {
                &&& #[trigger] self.stat_map().contains_key((chat, r@[a].user, key@))
                &&& r@[a].count == self.stat_map()[(chat, r@[a].user, key@)]
                &&& r@[a].count > 0
                &&& opt_view(r@[a].name) == known_name(self.member_map(), chat, r@[a].user)
            } by {
                lemma_map_index(pairs, rows[a]);
            }
            assert forall|user: i64| self.stat_map().contains_key((chat, user, key@)) && self.stat_map()[(chat, user, key@)] > 0
                implies exists|a: int| 0 <= a < r@.len() && #[trigger] r@[a].user == user by {
                lemma_map_key(pairs, (chat, user, key@));
                let j = choose|j: int| 0 <= j < pairs.len() && #[trigger] pairs[j].0 == (chat, user, key@) && pairs[j].1 == m[(chat, user, key@)];
                let a = choose|a: int| 0 <= a < rows.len() && rows[a] == j;
                assert(r@[a].user == user);
            }
            assert forall|a: int, b: int| 0 <= a < b < r@.len() implies (#[trigger] r@[a]).count > (#[trigger] r@[b]).count
                || (r@[a].count == r@[b].count && r@[a].user < r@[b].user) by {
                assert(0 <= rows[a] && 0 <= rows[b]);
                assert(r@[a].user == entries@[a].user && r@[b].user == entries@[b].user);
                assert(ranks_before(rank_keys(entries@)[a], rank_keys(entries@)[b]));
                assert(rank_keys(entries@)[a].1 == Seq::<char>::empty() && rank_keys(entries@)[b].1 == Seq::<char>::empty());
                assert(!text_lt(Seq::<char>::empty(), Seq::<char>::empty()));
            }
        }
        r
    }
}

/// Some line was built from the `j`-th member.
pub open spec fn covered(from: Seq<int>, j: int) -> bool {
    exists|k: int| 0 <= k < from.len() && #[trigger] from[k] == j
}

/// Of two moments, each the latest, neither is later than the other.
pub proof fn lemma_latest_unique(m: Map<(i64, i64, Seq<char>), Seq<char>>, chat: i64, user: i64, v: Seq<char>, w: Seq<char>)
    requires
        is_latest(m, chat, user, v),
        is_latest(m, chat, user, w),
    ensures
        v == w,
{
    let a = choose|code: Seq<char>| #[trigger] m.contains_key((chat, user, code)) && m[(chat, user, code)] == v;
    let b = choose|code: Seq<char>| #[trigger] m.contains_key((chat, user, code)) && m[(chat, user, code)] == w;
    assert(!text_lt(v, m[(chat, user, b)]));
    assert(!text_lt(w, m[(chat, user, a)]));
    lemma_text_lt_total(v, w);
}

impl Store {
    /// The members who own an achievement in the chat, each once.
    fn achievers(&self, chat: i64) -> (r: Vec<i64>)
        ensures
            r@.no_duplicates(),
            forall|i: int| 0 <= i < r@.len() ==> has_achievement(self.achievement_map(), chat, #[trigger] r@[i]),
            forall|user: i64| has_achievement(self.achievement_map(), chat, user) ==> r@.contains(user),
    {
        proof {
            use_type_invariant(self);
        }
        let ghost pairs = achievement_pairs(self.achievements@);
        let ghost m = self.achievement_map();
        let mut r: Vec<i64> = Vec::new();
        let mut i: usize = 0;
        while i < self.achievements.len()
            invariant
                i <= self.achievements.len(),
                pairs == achievement_pairs(self.achievements@),
                m == as_map(pairs),
                distinct_keys(pairs),
                r@.no_duplicates(),
                forall|k: int| 0 <= k < r@.len() ==> has_achievement(m, chat, #[trigger] r@[k]),
                forall|j: int| 0 <= j < i && (#[trigger] pairs[j]).0.0 == chat ==> r@.contains(pairs[j].0.1),
            decreases self.achievements.len() - i,
        {
            if self.achievements[i].chat == chat && !holds_user(&r, self.achievements[i].user) {
                let ghost before = r@;
                r.push(self.achievements[i].user);
                proof {
                    lemma_map_index(pairs, i as int);
                    assert(m.contains_key((chat, pairs[i as int].0.1, pairs[i as int].0.2)));
                    assert forall|k: int| 0 <= k < r@.len() implies has_achievement(m, chat, #[trigger] r@[k]) by {
                        if k == before.len() {
                            assert(m.contains_key((chat, r@[k], pairs[i as int].0.2)));
                        } else {
                            assert(r@[k] == before[k]);
                        }
                    }
                    assert forall|j: int| 0 <= j < i + 1 && (#[trigger] pairs[j]).0.0 == chat implies r@.contains(pairs[j].0.1) by {
                        if j < i {
                            let k = choose|k: int| 0 <= k < before.len() && before[k] == pairs[j].0.1;
                            assert(r@[k] == pairs[j].0.1);
                        } else {
                            assert(r@[before.len() as int] == pairs[j].0.1);
                        }
                    }
                }
            }
            i = i + 1;
        }
        proof {
            assert forall|user: i64| has_achievement(m, chat, user) implies r@.contains(user) by {
                let code = choose|code: Seq<char>| #[trigger] m.contains_key((chat, user, code));
                lemma_map_key(pairs, (chat, user, code));
                let j = choose|j: int| 0 <= j < pairs.len() && #[trigger] pairs[j].0 == (chat, user, code) && pairs[j].1 == m[(chat, user, code)];
                assert(pairs[j].0.0 == chat);
            }
        }
        r
    }

    /// How many achievements the member owns in the chat, and when they
    /// unlocked the latest.
    fn summary(&self, chat: i64, user: i64) -> (r: (i64, String))
        requires
            has_achievement(self.achievement_map(), chat, user),
        ensures
            r.0 == clamp_count(owned_codes(self.achievement_map(), chat, user).len()),
            r.1@ == latest_of(self.achievement_map(), chat, user),
    {
        let ghost m = self.achievement_map();
        let codes = self.owned(chat, user);
        let ghost views = codes@.map_values(|c: String| c@);
        proof {
            assert(views.no_duplicates()) by {
                assert forall|a: int, b: int| 0 <= a < views.len() && 0 <= b < views.len() && a != b implies views[a] != views[b] by {
                    if a < b {
                        assert(codes@[a]@ != codes@[b]@);
                    } else {
                        assert(codes@[b]@ != codes@[a]@);
                    }
                }
            }
            views.unique_seq_to_set();
            assert(views.to_set() =~= owned_codes(m, chat, user)) by {
                assert forall|c: Seq<char>| views.to_set().contains(c) <==> owned_codes(m, chat, user).contains(c) by {
                    if owned_codes(m, chat, user).contains(c) {
                        let k = choose|k: int| 0 <= k < codes@.len() && #[trigger] codes@[k]@ == c;
                        assert(views[k] == c);
                    }
                    if views.to_set().contains(c) {
                        let k = choose|k: int| 0 <= k < views.len() && views[k] == c;
                        assert(codes@[k]@ == c);
                    }
                }
            }
            let code = choose|code: Seq<char>| #[trigger] m.contains_key((chat, user, code));
            assert(exists|k: int| 0 <= k < codes@.len() && #[trigger] codes@[k]@ == code);
        }
        let n = codes.len();
        let count: i64 = if (n as u64) <= 0x7fff_ffff_ffff_ffffu64 {
            n as i64
        } else {
            0x7fff_ffff_ffff_ffff
        };
        let first = self.unlocked_at(chat, user, codes[0].as_str());
        let mut best = match first {
            Some(at) => at,
            None => String::new(),
        };
        proof {
            assert(m.contains_key((chat, user, codes@[0]@)));
            lemma_text_lt_total(best@, best@);
        }
        let mut k: usize = 1;
        while k < codes.len()
            invariant
                1 <= k <= codes.len(),
                m == self.achievement_map(),
                forall|j: int| 0 <= j < codes@.len() ==> m.contains_key((chat, user, #[trigger] codes@[j]@)),
                exists|j: int| 0 <= j < k && #[trigger] m[(chat, user, codes@[j]@)] == best@,
                forall|j: int| 0 <= j < k ==> !text_lt(best@, #[trigger] m[(chat, user, codes@[j]@)]),
            decreases codes.len() - k,
        {
            let at = match self.unlocked_at(chat, user, codes[k].as_str()) {
                Some(at) => at,
                None => String::new(),
            };
            proof {
                assert(m.contains_key((chat, user, codes@[k as int]@)));
                assert(at@ == m[(chat, user, codes@[k as int]@)]);
            }
            if str_less(best.as_str(), at.as_str()) {
                proof {
                    assert forall|j: int| 0 <= j < k + 1 implies !text_lt(at@, #[trigger] m[(chat, user, codes@[j]@)]) by {
                        if j < k && text_lt(at@, m[(chat, user, codes@[j]@)]) {
                            lemma_text_lt_transitive(best@, at@, m[(chat, user, codes@[j]@)]);
                        }
                        if j == k {
                            lemma_text_lt_total(at@, at@);
                        }
                    }
                    assert(m[(chat, user, codes@[k as int]@)] == at@);
                }
                best = at;
            }
            k = k + 1;
        }
        proof {
            assert(is_latest(m, chat, user, best@)) by {
                let j = choose|j: int| 0 <= j < k && #[trigger] m[(chat, user, codes@[j]@)] == best@;
                assert(m.contains_key((chat, user, codes@[j]@)));
                assert forall|code: Seq<char>| #[trigger] m.contains_key((chat, user, code)) implies !text_lt(best@, m[(chat, user, code)]) by {
                    let a = choose|a: int| 0 <= a < codes@.len() && #[trigger] codes@[a]@ == code;
                    assert(!text_lt(best@, m[(chat, user, codes@[a]@)]));
                }
            }
            lemma_latest_unique(m, chat, user, best@, latest_of(m, chat, user));
        }
        (count, best)
    }

    /// Returns the members of the chat ranked by how many achievements they
    /// own, the one who got there first ahead on a tie (and the lower user
    /// when they got there at the same moment).
    pub fn leaderboard(&self, chat: i64) -> (r: Vec<Standing>)
        ensures
            is_leaderboard(*self, chat, r@),
    {
        let ghost m = self.achievement_map();
        let users = self.achievers(chat);
        let mut entries: Vec<Ranked> = Vec::new();
        let ghost mut from: Seq<int> = Seq::empty();
        let mut i: usize = 0;
        while i < users.len()
            invariant
                i <= users.len(),
                m == self.achievement_map(),
                users@.no_duplicates(),
                forall|k: int| 0 <= k < users@.len() ==> has_achievement(m, chat, #[trigger] users@[k]),
                in_rank_order(rank_keys(entries@)),
                from.len() == entries@.len(),
                forall|k: int| 0 <= k < entries@.len() ==> {
                    &&& 0 <= #[trigger] from[k] < i
                    &&& users@[from[k]] == entries@[k].user
                    &&& entries@[k].count == clamp_count(owned_codes(m, chat, entries@[k].user).len())
                    &&& entries@[k].latest@ == latest_of(m, chat, entries@[k].user)
                },
                forall|j: int| 0 <= j < i ==> #[trigger] covered(from, j),
            decreases users.len() - i,
        {
            let (count, latest) = self.summary(chat, users[i]);
            let ghost before = entries@;
            let ghost old_from = from;
            proof {
                assert forall|k: int| 0 <= k < before.len() implies #[trigger] before[k].user != users@[i as int] by {
                    assert(0 <= from[k] < i);
                    assert(users@[from[k]] != users@[i as int]);
                }
            }
            let p = insert_ranked(&mut entries, Ranked { user: users[i], count, latest });
            proof {
                from = old_from.insert(p as int, i as int);
                assert forall|k: int| 0 <= k < entries@.len() implies {
                    &&& 0 <= #[trigger] from[k] < i + 1
                    &&& users@[from[k]] == entries@[k].user
                    &&& entries@[k].count == clamp_count(owned_codes(m, chat, entries@[k].user).len())
                    &&& entries@[k].latest@ == latest_of(m, chat, entries@[k].user)
                } by {
                    if k < p {
                        assert(entries@[k] == before[k] && from[k] == old_from[k]);
                    } else if k > p {
                        assert(entries@[k] == before[k - 1] && from[k] == old_from[k - 1]);
                    }
                }
                assert forall|j: int| 0 <= j < i + 1 implies #[trigger] covered(from, j) by {
                    if j == i {
                        assert(from[p as int] == j);
                    } else {
                        assert(covered(old_from, j));
                        let k = choose|k: int| 0 <= k < old_from.len() && #[trigger] old_from[k] == j;
                        if k < p {
                            assert(from[k] == j);
                        } else {
                            assert(from[k + 1] == j);
                        }
                    }
                }
            }
            i = i + 1;
        }
        let mut r: Vec<Standing> = Vec::new();
        let mut k: usize = 0;
        while k < entries.len()
            invariant
                k <= entries.len(),
                r@.len() == k,
                forall|a: int| 0 <= a < k ==> (#[trigger] r@[a]).user == entries@[a].user && r@[a].count == entries@[a].count
                    && opt_view(r@[a].name) == known_name(self.member_map(), chat, entries@[a].user),
            decreases entries.len() - k,
        {
            let name = self.member_name(chat, entries[k].user);
            r.push(Standing { user: entries[k].user, name, count: entries[k].count });
            k = k + 1;
        }
        proof {
            assert forall|a: int| 0 <= a < r@.len() implies {
                &&& has_achievement(m, chat, (#[trigger] r@[a]).user)
                &&& r@[a].count == clamp_count(owned_codes(m, chat, r@[a].user).len())
                &&& opt_view(r@[a].name) == known_name(self.member_map(), chat, r@[a].user)
            } by {
                assert(0 <= from[a] < users@.len());
                assert(has_achievement(m, chat, users@[from[a]]));
            }
            assert forall|user: i64| has_achievement(m, chat, user) implies exists|a: int| 0 <= a < r@.len() && #[trigger] r@[a].user == user by {
                assert(users@.contains(user));
                let j = choose|j: int| 0 <= j < users@.len() && users@[j] == user;
                assert(0 <= j < i);
                assert(covered(from, j));
                let a = choose|a: int| 0 <= a < from.len() && #[trigger] from[a] == j;
                assert(r@[a].user == user);
            }
            assert forall|a: int, b: int| 0 <= a < b < r@.len() implies ranks_before(
                ((#[trigger] r@[a]).count, latest_of(m, chat, r@[a].user), r@[a].user),
                ((#[trigger] r@[b]).count, latest_of(m, chat, r@[b].user), r@[b].user),
            ) by {
                assert(0 <= from[a] && 0 <= from[b]);
                assert(ranks_before(rank_keys(entries@)[a], rank_keys(entries@)[b]));
            }
        }
        r
    }
}

/// Every row of the store, as plain values, for saving it elsewhere.
pub struct Snapshot {
    /// Chat, user, key, value.
    pub stats: Vec<(i64, i64, String, i64)>,
    /// Chat, user, username, first name, when last seen.
    pub members: Vec<(i64, i64, Option<String>, String, String)>,
    /// Chat, key, value.
    pub state: Vec<(i64, String, i64)>,
    /// Chat, user, code, when unlocked.
    pub achievements: Vec<(i64, i64, String, String)>,
    /// Chat, message, user, quote.
    pub owners: Vec<(i64, i32, i64, Option<i64>)>,
    pub chats: Vec<i64>,
    /// Id, source, text, score.
    pub quotes: Vec<(i64, String, String, i64)>,
    /// Id, chat, message, when sent, text.
    pub waiting: Vec<(i64, i64, i32, String, String)>,
}

impl Store {
    /// Returns every row of the store, table by table, in the order kept.
    pub fn snapshot(&self) -> (r: Snapshot)
        ensures
            as_map(r.stats@.map_values(|x: (i64, i64, String, i64)| ((x.0, x.1, x.2@), x.3))) == self.stat_map(),
            as_map(r.members@.map_values(
                |x: (i64, i64, Option<String>, String, String)| ((x.0, x.1), (opt_view(x.2), x.3@, x.4@)),
            )) == self.member_map(),
            as_map(r.state@.map_values(|x: (i64, String, i64)| ((x.0, x.1@), x.2))) == self.state_map(),
            as_map(r.achievements@.map_values(|x: (i64, i64, String, String)| ((x.0, x.1, x.2@), x.3@)))
                == self.achievement_map(),
            as_map(r.owners@.map_values(
                |x: (i64, i32, i64, Option<i64>)| ((x.0, x.1), MessageOwner { user: x.2, quote: x.3 }),
            )) == self.owner_map(),
            r.chats@ == self.chat_list(),
            r.quotes@.map_values(|x: (i64, String, String, i64)| (x.0, x.1@, x.2@, x.3)) == self.quote_list(),
            r.waiting@.map_values(|x: (i64, i64, i32, String, String)| (x.0, x.1, x.2, x.3@, x.4@)) == self.waiting_list(),
    {
        let mut stats: Vec<(i64, i64, String, i64)> = Vec::new();
        let mut i: usize = 0;
        while i < self.stats.len()
            invariant
                i <= self.stats@.len(),
                stats@.map_values(|x: (i64, i64, String, i64)| ((x.0, x.1, x.2@), x.3)) == stat_pairs(self.stats@).take(i as int),
            decreases self.stats@.len() - i,
        {
            let row = &self.stats[i];
            let ghost before = stats@;
            stats.push((row.chat, row.user, row.key.clone(), row.value));
            proof {
                assert(stat_pairs(self.stats@).take(i + 1) =~= stat_pairs(self.stats@).take(i as int).push(stat_pairs(self.stats@)[i as int]));
                assert(stats@.map_values(|x: (i64, i64, String, i64)| ((x.0, x.1, x.2@), x.3)) =~= before.map_values(|x: (i64, i64, String, i64)| ((x.0, x.1, x.2@), x.3)).push(stat_pairs(self.stats@)[i as int]));
            }
            i = i + 1;
            assert(stats@.map_values(|x: (i64, i64, String, i64)| ((x.0, x.1, x.2@), x.3)) =~= stat_pairs(self.stats@).take(i as int));
        }
        assert(stat_pairs(self.stats@).take(i as int) =~= stat_pairs(self.stats@));
        let mut members: Vec<(i64, i64, Option<String>, String, String)> = Vec::new();
        let mut i: usize = 0;
        while i < self.members.len()
            invariant
                i <= self.members@.len(),
                members@.map_values(|x: (i64, i64, Option<String>, String, String)| ((x.0, x.1), (opt_view(x.2), x.3@, x.4@)))
                    == member_pairs(self.members@).take(i as int),
            decreases self.members@.len() - i,
        {
            let row = &self.members[i];
            let username = row.username.clone();
            assert(opt_view(username) == opt_view(row.username));
            let ghost before = members@;
            members.push((row.chat, row.user, username, row.first_name.clone(), row.last_seen.clone()));
            proof {
                assert(member_pairs(self.members@).take(i + 1) =~= member_pairs(self.members@).take(i as int).push(member_pairs(self.members@)[i as int]));
                assert(members@.map_values(|x: (i64, i64, Option<String>, String, String)| ((x.0, x.1), (opt_view(x.2), x.3@, x.4@))) =~= before.map_values(|x: (i64, i64, Option<String>, String, String)| ((x.0, x.1), (opt_view(x.2), x.3@, x.4@))).push(member_pairs(self.members@)[i as int]));
            }
            i = i + 1;
            assert(members@.map_values(|x: (i64, i64, Option<String>, String, String)| ((x.0, x.1), (opt_view(x.2), x.3@, x.4@)))
                =~= member_pairs(self.members@).take(i as int));
        }
        assert(member_pairs(self.members@).take(i as int) =~= member_pairs(self.members@));
        let mut state: Vec<(i64, String, i64)> = Vec::new();
        let mut i: usize = 0;
        while i < self.state.len()
            invariant
                i <= self.state@.len(),
                state@.map_values(|x: (i64, String, i64)| ((x.0, x.1@), x.2)) == state_pairs(self.state@).take(i as int),
            decreases self.state@.len() - i,
        {
            let row = &self.state[i];
            let ghost before = state@;
            state.push((row.chat, row.key.clone(), row.value));
            proof {
                assert(state_pairs(self.state@).take(i + 1) =~= state_pairs(self.state@).take(i as int).push(state_pairs(self.state@)[i as int]));
                assert(state@.map_values(|x: (i64, String, i64)| ((x.0, x.1@), x.2)) =~= before.map_values(|x: (i64, String, i64)| ((x.0, x.1@), x.2)).push(state_pairs(self.state@)[i as int]));
            }
            i = i + 1;
            assert(state@.map_values(|x: (i64, String, i64)| ((x.0, x.1@), x.2)) =~= state_pairs(self.state@).take(i as int));
        }
        assert(state_pairs(self.state@).take(i as int) =~= state_pairs(self.state@));
        let mut achievements: Vec<(i64, i64, String, String)> = Vec::new();
        let mut i: usize = 0;
        while i < self.achievements.len()
            invariant
                i <= self.achievements@.len(),
                achievements@.map_values(|x: (i64, i64, String, String)| ((x.0, x.1, x.2@), x.3@))
                    == achievement_pairs(self.achievements@).take(i as int),
            decreases self.achievements@.len() - i,
        {
            let row = &self.achievements[i];
            let ghost before = achievements@;
            achievements.push((row.chat, row.user, row.code.clone(), row.unlocked_at.clone()));
            proof {
                assert(achievement_pairs(self.achievements@).take(i + 1) =~= achievement_pairs(self.achievements@).take(i as int).push(achievement_pairs(self.achievements@)[i as int]));
                assert(achievements@.map_values(|x: (i64, i64, String, String)| ((x.0, x.1, x.2@), x.3@)) =~= before.map_values(|x: (i64, i64, String, String)| ((x.0, x.1, x.2@), x.3@)).push(achievement_pairs(self.achievements@)[i as int]));
            }
            i = i + 1;
            assert(achievements@.map_values(|x: (i64, i64, String, String)| ((x.0, x.1, x.2@), x.3@))
                =~= achievement_pairs(self.achievements@).take(i as int));
        }
        assert(achievement_pairs(self.achievements@).take(i as int) =~= achievement_pairs(self.achievements@));
        let mut owners: Vec<(i64, i32, i64, Option<i64>)> = Vec::new();
        let mut i: usize = 0;
        while i < self.owners.len()
            invariant
                i <= self.owners@.len(),
                owners@.map_values(|x: (i64, i32, i64, Option<i64>)| ((x.0, x.1), MessageOwner { user: x.2, quote: x.3 }))
                    == owner_pairs(self.owners@).take(i as int),
            decreases self.owners@.len() - i,
        {
            let row = &self.owners[i];
            let ghost before = owners@;
            owners.push((row.chat, row.message, row.user, row.quote));
            proof {
                assert(owner_pairs(self.owners@).take(i + 1) =~= owner_pairs(self.owners@).take(i as int).push(owner_pairs(self.owners@)[i as int]));
                assert(owners@.map_values(|x: (i64, i32, i64, Option<i64>)| ((x.0, x.1), MessageOwner { user: x.2, quote: x.3 })) =~= before.map_values(|x: (i64, i32, i64, Option<i64>)| ((x.0, x.1), MessageOwner { user: x.2, quote: x.3 })).push(owner_pairs(self.owners@)[i as int]));
            }
            i = i + 1;
            assert(owners@.map_values(|x: (i64, i32, i64, Option<i64>)| ((x.0, x.1), MessageOwner { user: x.2, quote: x.3 }))
                =~= owner_pairs(self.owners@).take(i as int));
        }
        assert(owner_pairs(self.owners@).take(i as int) =~= owner_pairs(self.owners@));
        let chats = self.chats();
        let mut quotes: Vec<(i64, String, String, i64)> = Vec::new();
        let mut i: usize = 0;
        while i < self.quotes.len()
            invariant
                i <= self.quotes@.len(),
                quotes@.map_values(|x: (i64, String, String, i64)| (x.0, x.1@, x.2@, x.3)) == quote_views(self.quotes@).take(i as int),
            decreases self.quotes@.len() - i,
        {
            let row = &self.quotes[i];
            let ghost before = quotes@;
            quotes.push((row.id, row.source.clone(), row.text.clone(), row.score));
            proof {
                assert(quote_views(self.quotes@).take(i + 1) =~= quote_views(self.quotes@).take(i as int).push(quote_views(self.quotes@)[i as int]));
                assert(quotes@.map_values(|x: (i64, String, String, i64)| (x.0, x.1@, x.2@, x.3)) =~= before.map_values(|x: (i64, String, String, i64)| (x.0, x.1@, x.2@, x.3)).push(quote_views(self.quotes@)[i as int]));
            }
            i = i + 1;
            assert(quotes@.map_values(|x: (i64, String, String, i64)| (x.0, x.1@, x.2@, x.3)) =~= quote_views(self.quotes@).take(i as int));
        }
        assert(quote_views(self.quotes@).take(i as int) =~= quote_views(self.quotes@));
        let mut waiting: Vec<(i64, i64, i32, String, String)> = Vec::new();
        let mut i: usize = 0;
        while i < self.waiting.len()
            invariant
                i <= self.waiting@.len(),
                waiting@.map_values(|x: (i64, i64, i32, String, String)| (x.0, x.1, x.2, x.3@, x.4@))
                    == waiting_views(self.waiting@).take(i as int),
            decreases self.waiting@.len() - i,
        {
            let row = &self.waiting[i];
            let ghost before = waiting@;
            waiting.push((row.id, row.chat, row.message, row.sent_at.clone(), row.text.clone()));
            proof {
                assert(waiting_views(self.waiting@).take(i + 1) =~= waiting_views(self.waiting@).take(i as int).push(waiting_views(self.waiting@)[i as int]));
                assert(waiting@.map_values(|x: (i64, i64, i32, String, String)| (x.0, x.1, x.2, x.3@, x.4@)) =~= before.map_values(|x: (i64, i64, i32, String, String)| (x.0, x.1, x.2, x.3@, x.4@)).push(waiting_views(self.waiting@)[i as int]));
            }
            i = i + 1;
            assert(waiting@.map_values(|x: (i64, i64, i32, String, String)| (x.0, x.1, x.2, x.3@, x.4@))
                =~= waiting_views(self.waiting@).take(i as int));
        }
        assert(waiting_views(self.waiting@).take(i as int) =~= waiting_views(self.waiting@));
        Snapshot { stats, members, state, achievements, owners, chats, quotes, waiting }
    }
}

} // verus!
