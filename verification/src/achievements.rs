use vstd::prelude::*;

use crate::apply::{apply, counts};
use crate::chars::{chars_of, extend, extend_str, string_of};
use crate::clock::{representable, rfc3339, rfc3339_of};
use crate::event::{describes, is_human_message, Event};
use crate::html::{escape, escaped, mention, mention_link, telegram_id};
use crate::rules::{
    all_achievements, codes_are_distinct, code_views, lemma_catalogue_distinct, lemma_filter_distinct_items, owns, unlocked,
    unlocked_spec, Achievement,
};
use crate::store::{owned_codes, Part, Store, StoreError};
use crate::update::{cast, cast_id, Incoming, Update};

verus! {

/// An achievement to announce in a chat, as a reply to the message that
/// earned it.
pub struct Award {
    pub chat: i64,
    pub reply_to: i32,
    pub achievement: Achievement,
    pub text: String,
}

/// What counting one message did: the facts read from it, what counting
/// answered, and the achievements to announce.
pub struct Handled {
    pub event: Event,
    pub counted: Result<bool, StoreError>,
    pub awards: Vec<Award>,
}

/// The announcement of an achievement, in Matthew's voice: a mention of the
/// member, the title and the text.
pub open spec fn award_text(e: Event, a: Achievement) -> Seq<char> {
    "🏆 "@ + mention_link(telegram_id(e.user), e.first_name@) + " — «"@ + escaped(a.title_spec()) + "»\n"@
        + escaped(a.text_spec())
}

/// The achievements the member has earned and does not own yet, in
/// catalogue order.
pub open spec fn earned(
    achievements: Map<(i64, i64, Seq<char>), Seq<char>>,
    stats: Map<Seq<char>, i64>,
    chat: i64,
    user: i64,
) -> Seq<Achievement> {
    let codes = owned_codes(achievements, chat, user);
    all_achievements().filter(|a: Achievement| !codes.contains(a.code_spec()) && a.unlocked_spec(stats, codes.len()))
}

/// `after` holds the achievements of `before` and, for the member, the ones
/// listed, each unlocked at `at`.
pub open spec fn unlocks_all(
    before: Map<(i64, i64, Seq<char>), Seq<char>>,
    after: Map<(i64, i64, Seq<char>), Seq<char>>,
    chat: i64,
    user: i64,
    list: Seq<Achievement>,
    at: Seq<char>,
) -> bool {
    &&& forall|k: (i64, i64, Seq<char>)| #[trigger] after.contains_key(k) <==> (before.contains_key(k)
        || (k.0 == chat && k.1 == user && exists|i: int| 0 <= i < list.len() && #[trigger] list[i].code_spec() == k.2))
    &&& forall|k: (i64, i64, Seq<char>)| #[trigger] before.contains_key(k) ==> after[k] == before[k]
    &&& forall|i: int| 0 <= i < list.len() ==> after[(chat, user, #[trigger] list[i].code_spec())] == at
}

/// The achievements of the member that `after` gives on top of `before`,
/// announced in order.
pub open spec fn awarded(
    awards: Seq<Award>,
    list: Seq<Achievement>,
    e: Event,
) -> bool {
    &&& awards.len() == list.len()
    &&& forall|i: int| 0 <= i < awards.len() ==> {
        &&& (#[trigger] awards[i]).achievement == list[i]
        &&& awards[i].chat == e.chat
        &&& awards[i].reply_to == e.message_id
        &&& awards[i].text@ == award_text(e, list[i])
    }
}

/// Returns the announcement of the achievement to the member.
pub fn award_text_of(e: &Event, a: Achievement) -> (r: String)
    ensures
        r@ == award_text(*e, a),
{
    let mut v = chars_of("🏆 ");
    let mention_text = mention(e.user, e.first_name.as_str());
    extend_str(&mut v, mention_text.as_str());
    extend_str(&mut v, " — «");
    let title = escape(a.title());
    extend_str(&mut v, title.as_str());
    extend_str(&mut v, "»\n");
    let text = escape(a.text());
    extend_str(&mut v, text.as_str());
    string_of(&v)
}

/// Gives the member every achievement they have earned and do not own yet,
/// and returns the announcements, in catalogue order.
pub fn award_earned(store: &mut Store, e: &Event) -> (r: Vec<Award>)
    requires
        representable(e.created_at as int),
    ensures
        awarded(r@, earned(old(store).achievement_map(), old(store).member_stats(e.chat, e.user), e.chat, e.user), *e),
        unlocks_all(
            old(store).achievement_map(),
            final(store).achievement_map(),
            e.chat,
            e.user,
            earned(old(store).achievement_map(), old(store).member_stats(e.chat, e.user), e.chat, e.user),
            rfc3339_of(e.created_at),
        ),
        final(store).same_except(*old(store), set![Part::Achievements]),
{
    let ghost s0 = *store;
    let ghost m0 = store.achievement_map();
    let stats = store.stats(e.chat, e.user);
    let owned = store.owned(e.chat, e.user);
    let list = unlocked(&stats, &owned);
    proof {
        let codes = owned_codes(m0, e.chat, e.user);
        let views = code_views(owned@);
        assert(views.no_duplicates()) by {
            assert forall|a: int, b: int| 0 <= a < views.len() && 0 <= b < views.len() && a != b implies views[a] != views[b] by {
                if a < b {
                    assert(owned@[a]@ != owned@[b]@);
                } else {
                    assert(owned@[b]@ != owned@[a]@);
                }
            }
        }
        views.unique_seq_to_set();
        assert(views.to_set() =~= codes) by {
            assert forall|c: Seq<char>| views.to_set().contains(c) <==> codes.contains(c) by {
                if codes.contains(c) {
                    let k = choose|k: int| 0 <= k < owned@.len() && #[trigger] owned@[k]@ == c;
                    assert(views[k] == c);
                }
                if views.to_set().contains(c) {
                    let k = choose|k: int| 0 <= k < views.len() && views[k] == c;
                    assert(owned@[k]@ == c);
                }
            }
        }
        assert forall|a: Achievement| owns(owned@, a) <==> codes.contains(a.code_spec()) by {
            if codes.contains(a.code_spec()) {
                assert(views.to_set().contains(a.code_spec()));
            }
        }
        assert(views.len() == owned@.len());
        assert(owned@.len() == codes.len());
        let p1 = |a: Achievement| !owns(owned@, a) && a.unlocked_spec(stats@, owned@.len());
        let p2 = |a: Achievement| !codes.contains(a.code_spec()) && a.unlocked_spec(s0.member_stats(e.chat, e.user), codes.len());
        assert(p1 =~= p2);
        assert(unlocked_spec(stats@, owned@) == all_achievements().filter(p1));
        assert(earned(m0, s0.member_stats(e.chat, e.user), e.chat, e.user) == all_achievements().filter(p2));
    }
    let at = match rfc3339(e.created_at) {
        Some(text) => text,
        None => String::new(),
    };
    let ghost goal = earned(m0, s0.member_stats(e.chat, e.user), e.chat, e.user);
    let mut awards: Vec<Award> = Vec::new();
    let mut i: usize = 0;
    while i < list.len()
        invariant
            i <= list@.len(),
            list@ == goal,
            goal == earned(m0, s0.member_stats(e.chat, e.user), e.chat, e.user),
            m0 == s0.achievement_map(),
            at@ == rfc3339_of(e.created_at),
            awards@.len() == i,
            forall|k: int| 0 <= k < i ==> {
                &&& (#[trigger] awards@[k]).achievement == goal[k]
                &&& awards@[k].chat == e.chat
                &&& awards@[k].reply_to == e.message_id
                &&& awards@[k].text@ == award_text(*e, awards@[k].achievement)
            },
            unlocks_all(m0, store.achievement_map(), e.chat, e.user, goal.take(i as int), at@),
            store.same_except(s0, set![Part::Achievements]),
        decreases list@.len() - i,
    {
        let achievement = list[i];
        let ghost before = *store;
        proof {
            assert(goal.take(i as int + 1) =~= goal.take(i as int).push(achievement));
            let keep = |a: Achievement| !owned_codes(m0, e.chat, e.user).contains(a.code_spec())
                && a.unlocked_spec(s0.member_stats(e.chat, e.user), owned_codes(m0, e.chat, e.user).len());
            broadcast use vstd::seq_lib::group_filter_ensures;
            assert(keep(goal[i as int]));
            assert(!before.achievement_map().contains_key((e.chat, e.user, achievement.code_spec()))) by {
                if before.achievement_map().contains_key((e.chat, e.user, achievement.code_spec())) {
                    if !m0.contains_key((e.chat, e.user, achievement.code_spec())) {
                        let j = choose|j: int| 0 <= j < goal.take(i as int).len() && #[trigger] goal.take(i as int)[j].code_spec() == achievement.code_spec();
                        let a = goal.take(i as int)[j];
                        if a != achievement {
                            codes_are_distinct(a, achievement);
                        }
                        assert(goal[j] == goal[i as int]);
                        assert(all_achievements().filter(keep).no_duplicates()) by {
                            lemma_part_distinct(keep);
                        }
                    }
                }
            }
        }
        let fresh = store.unlock(e.chat, e.user, achievement.code(), at.as_str());
        let text = award_text_of(e, achievement);
        awards.push(Award { chat: e.chat, reply_to: e.message_id, achievement, text });
        proof {
            let done = goal.take(i as int + 1);
            assert forall|k: (i64, i64, Seq<char>)| #[trigger] store.achievement_map().contains_key(k) <==> (s0.achievement_map().contains_key(k)
                || (k.0 == e.chat && k.1 == e.user && exists|j: int| 0 <= j < done.len() && #[trigger] done[j].code_spec() == k.2)) by {
                if k.0 == e.chat && k.1 == e.user && k.2 == achievement.code_spec() {
                    assert(done[i as int].code_spec() == k.2);
                }
                if k.0 == e.chat && k.1 == e.user && exists|j: int| 0 <= j < done.len() && #[trigger] done[j].code_spec() == k.2 {
                    let j = choose|j: int| 0 <= j < done.len() && #[trigger] done[j].code_spec() == k.2;
                    if j < i {
                        assert(goal.take(i as int)[j].code_spec() == k.2);
                    }
                }
                if (k.0 == e.chat && k.1 == e.user && exists|j: int| 0 <= j < goal.take(i as int).len() && #[trigger] goal.take(i as int)[j].code_spec() == k.2) {
                    let j = choose|j: int| 0 <= j < goal.take(i as int).len() && #[trigger] goal.take(i as int)[j].code_spec() == k.2;
                    assert(done[j].code_spec() == k.2);
                }
            }
            assert forall|j: int| 0 <= j < done.len() implies store.achievement_map()[(e.chat, e.user, #[trigger] done[j].code_spec())] == at@ by {
                if j < i {
                    assert(done[j] == goal.take(i as int)[j]);
                }
            }
        }
        i = i + 1;
    }
    proof {
        assert(goal.take(i as int) =~= goal);
    }
    awards
}

/// No achievement comes twice in a part of the catalogue.
proof fn lemma_part_distinct(keep: spec_fn(Achievement) -> bool)
    ensures
        all_achievements().filter(keep).no_duplicates(),
{
    lemma_catalogue_distinct();
    lemma_filter_distinct_items(all_achievements(), keep);
}

/// Counts the message of the update and gives its author every
/// achievement they earned with it.
///
/// Returns nothing for updates that are not messages, for messages without
/// an author and for messages written by a bot; the store stays as it was.
/// Achievements are given only when the message was counted.
pub fn track_and_award(store: &mut Store, update: &Update) -> (r: Option<Handled>)
    requires
        update matches Update::Message(m) ==> representable(m.date as int),
    ensures
        r is Some <==> is_human_message(*update),
        r is None ==> final(store).same_except(*old(store), Set::<Part>::empty()),
        r matches Some(t) ==> {
            &&& describes(t.event, update->Message_0)
            &&& counts(*old(store), *final(store), t.event, t.counted)
            &&& final(store).same_except(*old(store), set![Part::Stats, Part::State, Part::Members, Part::Achievements])
            &&& t.counted != Result::<bool, StoreError>::Ok(true) ==> t.awards@.len() == 0
                && final(store).achievement_map() == old(store).achievement_map()
            &&& t.counted == Result::<bool, StoreError>::Ok(true) ==> {
                let list = earned(
                    old(store).achievement_map(),
                    final(store).member_stats(t.event.chat, t.event.user),
                    t.event.chat,
                    t.event.user,
                );
                &&& awarded(t.awards@, list, t.event)
                &&& unlocks_all(
                    old(store).achievement_map(),
                    final(store).achievement_map(),
                    t.event.chat,
                    t.event.user,
                    list,
                    rfc3339_of(t.event.created_at),
                )
            }
        },
{
    let event = match Event::parse(update) {
        Some(event) => event,
        None => {
            return None;
        },
    };
    let ghost s0 = *store;
    let counted = apply(store, &event);
    let awards = match counted {
        Ok(true) => award_earned(store, &event),
        _ => Vec::new(),
    };
    Some(Handled { event, counted, awards })
}

/// Counts a reply the bot sent to the author of the message.
pub fn record_bot_reply(store: &mut Store, message: &Incoming) -> (r: Result<(), StoreError>)
    ensures
        message.from is None ==> r is Ok && final(store).same_except(*old(store), Set::<Part>::empty()),
        message.from matches Some(a) ==> {
            let before = old(store).stat_of(message.chat, cast_id(a.id), "bot_replies"@);
            &&& r is Ok ==> final(store).stat_map() == old(store).stat_map().insert((message.chat, cast_id(a.id), "bot_replies"@), (before + 1) as i64)
            &&& r is Err ==> before == i64::MAX && final(store).stat_map() == old(store).stat_map()
        },
        final(store).same_except(*old(store), set![Part::Stats]),
{
    match &message.from {
        Some(author) => {
            let user = cast(author.id);
            match store.bump(message.chat, user, "bot_replies", 1) {
                Ok(_) => Ok(()),
                Err(error) => Err(error),
            }
        },
        None => Ok(()),
    }
}

} // verus!
