use vstd::prelude::*;

use crate::chars::{chars_of, extend, string_of};
use crate::clock::{representable, rfc3339, rfc3339_of};
use crate::digits::{number_text, signed_decimal};
use crate::event::{mention_views, Event, Mention, MentionOf};
use crate::rules::{counter, Stats};
use crate::store::{goes_by, opt_view, MemberInfo, Part, Store, StoreError};

verus! {

pub const NIGHT_FROM_HOUR: u32 = 2;
pub const NIGHT_TO_HOUR: u32 = 6;
pub const LONG_MESSAGE_CHARS: usize = 300;
pub const APOLOGY_WINDOW_SECONDS: i64 = 60;
pub const PING_TIMEOUT_SECONDS: i64 = 3600;
pub const CALL_TIMEOUT_SECONDS: i64 = 600;
pub const CHAIN_WINDOW_SECONDS: i64 = 1800;
pub const MONOLOGUE_RUN: i64 = 5;

pub const NIGHT_MESSAGES: &'static str = "night_messages";
pub const LONG_MESSAGES: &'static str = "long_messages";
pub const LONGEST_MESSAGE: &'static str = "longest_message";
pub const POLITICS: &'static str = "politics";
pub const LAUGH_ONLY: &'static str = "laugh_only";
pub const STREAM_MENTIONS: &'static str = "stream_mentions";
pub const VINOGRAD_MENTIONS: &'static str = "vinograd_mentions";
pub const REPLIES_TO_BOT: &'static str = "replies_to_bot";
pub const LAST_MAT_AT: &'static str = "last_mat_at";
pub const APOLOGIES: &'static str = "apologies";
pub const UNANSWERED_STREAK: &'static str = "unanswered_streak";
pub const PINGED_AT: &'static str = "pinged_at";
pub const IGNORED_PINGS: &'static str = "ignored_pings";
pub const UNANSWERED_CALLS: &'static str = "unanswered_calls";
pub const MONOLOGUES: &'static str = "monologues";
pub const CHAIN_LEN: &'static str = "chain_len";
pub const LAST_MESSAGE_ID: &'static str = "last_message_id";
pub const CALL_BY: &'static str = "call_by";
pub const CALL_AT: &'static str = "call_at";
pub const LAST_USER_ID: &'static str = "last_user_id";
pub const RUN_LEN: &'static str = "run_len";
pub const CHAIN_A: &'static str = "chain_a";
pub const CHAIN_B: &'static str = "chain_b";
pub const CHAIN_STARTED_AT: &'static str = "chain_started_at";
pub const MENTION_PREFIX: &'static str = "mention:";

/// The counters of the members and the state of the chats, by key.
pub type Tables = (Map<(i64, i64, Seq<char>), i64>, Map<(i64, Seq<char>), i64>);

/// The tables of a store.
pub open spec fn tables_of(s: Store) -> Tables {
    (s.stat_map(), s.state_map())
}

/// A counter, zero when it was never set.
pub open spec fn stat_in(t: Tables, chat: i64, user: i64, key: Seq<char>) -> i64 {
    if t.0.contains_key((chat, user, key)) { t.0[(chat, user, key)] } else { 0 }
}

pub open spec fn with_stat(t: Tables, chat: i64, user: i64, key: Seq<char>, value: i64) -> Tables {
    (t.0.insert((chat, user, key), value), t.1)
}

pub open spec fn with_state(t: Tables, chat: i64, key: Seq<char>, value: i64) -> Tables {
    (t.0, t.1.insert((chat, key), value))
}

/// The counter raised by one.
pub open spec fn raised(t: Tables, chat: i64, user: i64, key: Seq<char>) -> Tables {
    with_stat(t, chat, user, key, (stat_in(t, chat, user, key) + 1) as i64)
}

/// Tables after a run of statements: all of them went through, or one was
/// refused and the tables stayed as the statements before it left them.
pub type Outcome = Result<Tables, Tables>;

/// Raising a counter, refused when it already holds the largest value.
pub open spec fn raise(t: Tables, chat: i64, user: i64, key: Seq<char>) -> Outcome {
    if stat_in(t, chat, user, key) == i64::MAX { Err(t) } else { Ok(raised(t, chat, user, key)) }
}

pub open spec fn raise_if(b: bool, t: Tables, chat: i64, user: i64, key: Seq<char>) -> Outcome {
    if b { raise(t, chat, user, key) } else { Ok(t) }
}

/// Goes on with `f` after the statements before went through.
pub open spec fn then(o: Outcome, f: spec_fn(Tables) -> Outcome) -> Outcome {
    match o {
        Ok(t) => f(t),
        Err(t) => Err(t),
    }
}

/// The name of the counter of how often the member mentioned `target`.
pub open spec fn mention_key(target: i64) -> Seq<char> {
    MENTION_PREFIX@ + signed_decimal(target as int)
}

/// The length of the message as a counter.
pub open spec fn length_of(e: Event) -> i64 {
    if e.len as int <= i64::MAX as int { e.len as i64 } else { i64::MAX }
}

pub open spec fn at_night(e: Event) -> bool {
    NIGHT_FROM_HOUR <= e.hour_msk < NIGHT_TO_HOUR
}

pub open spec fn keep_longest(t: Tables, e: Event) -> Tables {
    if length_of(e) > stat_in(t, e.chat, e.user, LONGEST_MESSAGE@) {
        with_stat(t, e.chat, e.user, LONGEST_MESSAGE@, length_of(e))
    } else {
        t
    }
}

pub open spec fn count_message(t: Tables, e: Event) -> Outcome {
    then(
        then(
            raise_if(at_night(e), t, e.chat, e.user, NIGHT_MESSAGES@),
            |t1: Tables| raise_if(e.len > LONG_MESSAGE_CHARS, t1, e.chat, e.user, LONG_MESSAGES@),
        ),
        |t2: Tables| Ok(keep_longest(t2, e)),
    )
}

pub open spec fn count_words(t: Tables, e: Event) -> Outcome {
    then(
        then(
            then(
                then(
                    raise_if(e.politics, t, e.chat, e.user, POLITICS@),
                    |t1: Tables| raise_if(e.laugh_only, t1, e.chat, e.user, LAUGH_ONLY@),
                ),
                |t2: Tables| raise_if(e.stream, t2, e.chat, e.user, STREAM_MENTIONS@),
            ),
            |t3: Tables| raise_if(e.vinograd, t3, e.chat, e.user, VINOGRAD_MENTIONS@),
        ),
        |t4: Tables| raise_if(e.reply_to_bot, t4, e.chat, e.user, REPLIES_TO_BOT@),
    )
}

/// The apology comes within a minute of the member's last obscene word.
pub open spec fn apology_counts(t: Tables, e: Event) -> bool {
    let last = stat_in(t, e.chat, e.user, LAST_MAT_AT@);
    e.apology && last > 0 && e.created_at - last <= APOLOGY_WINDOW_SECONDS
}

pub open spec fn settle_apology(t: Tables, e: Event) -> Outcome {
    if apology_counts(t, e) {
        then(raise(t, e.chat, e.user, APOLOGIES@), |t1: Tables| Ok(with_stat(t1, e.chat, e.user, LAST_MAT_AT@, 0)))
    } else if e.mat {
        Ok(with_stat(t, e.chat, e.user, LAST_MAT_AT@, e.created_at))
    } else {
        Ok(t)
    }
}

/// A reply to someone else answers them: their streak starts over.
pub open spec fn answer(t: Tables, e: Event) -> Tables {
    match e.reply_to_user {
        Some(target) => if target != e.user { with_stat(t, e.chat, target, UNANSWERED_STREAK@, 0) } else { t },
        None => t,
    }
}

pub open spec fn settle_streak(t: Tables, e: Event) -> Outcome {
    then(raise(t, e.chat, e.user, UNANSWERED_STREAK@), |t1: Tables| Ok(answer(t1, e)))
}

/// The member was pinged over an hour before writing.
pub open spec fn ping_ignored(t: Tables, e: Event) -> bool {
    let pinged = stat_in(t, e.chat, e.user, PINGED_AT@);
    pinged > 0 && e.created_at - pinged > PING_TIMEOUT_SECONDS
}

pub open spec fn ping_one(t: Tables, e: Event, target: i64) -> Tables {
    if target != e.user && stat_in(t, e.chat, target, PINGED_AT@) == 0 {
        with_stat(t, e.chat, target, PINGED_AT@, e.created_at)
    } else {
        t
    }
}

pub open spec fn ping_all(t: Tables, e: Event, targets: Seq<i64>) -> Tables
    decreases targets.len(),
{
    if targets.len() == 0 {
        t
    } else {
        ping_one(ping_all(t, e, targets.drop_last()), e, targets.last())
    }
}

pub open spec fn settle_ping(t: Tables, e: Event, targets: Seq<i64>) -> Outcome {
    if stat_in(t, e.chat, e.user, PINGED_AT@) > 0 {
        then(
            raise_if(ping_ignored(t, e), t, e.chat, e.user, IGNORED_PINGS@),
            |t1: Tables| Ok(ping_all(with_stat(t1, e.chat, e.user, PINGED_AT@, 0), e, targets)),
        )
    } else {
        Ok(ping_all(t, e, targets))
    }
}

/// The member who called the chat to play and has not been answered.
pub open spec fn caller(s: Map<Seq<char>, i64>) -> i64 {
    counter(s, CALL_BY@)
}

/// The call went unanswered for ten minutes.
pub open spec fn call_expired(s: Map<Seq<char>, i64>, e: Event) -> bool {
    caller(s) != 0 && e.created_at - counter(s, CALL_AT@) > CALL_TIMEOUT_SECONDS
}

/// A call to play of this message is remembered.
pub open spec fn record_call(t: Tables, e: Event) -> Tables {
    if e.call_to_play {
        with_state(with_state(t, e.chat, CALL_BY@, e.user), e.chat, CALL_AT@, e.created_at)
    } else {
        t
    }
}

pub open spec fn settle_call(t: Tables, e: Event, s: Map<Seq<char>, i64>) -> Outcome {
    if call_expired(s, e) {
        then(
            raise(t, e.chat, caller(s), UNANSWERED_CALLS@),
            |t1: Tables| Ok(record_call(with_state(t1, e.chat, CALL_BY@, 0), e)),
        )
    } else if caller(s) != 0 && caller(s) != e.user {
        Ok(record_call(with_state(t, e.chat, CALL_BY@, 0), e))
    } else {
        Ok(record_call(t, e))
    }
}

/// How many messages in a row the member has written, this one included.
pub open spec fn run_of(s: Map<Seq<char>, i64>, e: Event) -> int {
    if counter(s, LAST_USER_ID@) == e.user { counter(s, RUN_LEN@) + 1 } else { 1 }
}

pub open spec fn settle_monologue(t: Tables, e: Event, s: Map<Seq<char>, i64>) -> Outcome {
    if run_of(s, e) > i64::MAX {
        Err(t)
    } else {
        let t1 = with_state(with_state(t, e.chat, LAST_USER_ID@, e.user), e.chat, RUN_LEN@, run_of(s, e) as i64);
        raise_if(run_of(s, e) == MONOLOGUE_RUN, t1, e.chat, e.user, MONOLOGUES@)
    }
}

/// The reply goes on the exchange between the same two members, within
/// half an hour of its start.
pub open spec fn chain_goes_on(s: Map<Seq<char>, i64>, e: Event, target: i64) -> bool {
    let first = counter(s, CHAIN_A@);
    let second = counter(s, CHAIN_B@);
    let same_pair = (first == e.user && second == target) || (first == target && second == e.user);
    same_pair && e.created_at - counter(s, CHAIN_STARTED_AT@) <= CHAIN_WINDOW_SECONDS
}

/// The exchange of replies between the two members grows to `length`.
pub open spec fn record_chain(t: Tables, e: Event, target: i64, length: i64) -> Tables {
    let t1 = with_state(t, e.chat, CHAIN_LEN@, length);
    let t2 = with_stat(t1, e.chat, e.user, CHAIN_LEN@, length);
    with_stat(t2, e.chat, target, CHAIN_LEN@, length)
}

pub open spec fn settle_chain(t: Tables, e: Event, s: Map<Seq<char>, i64>) -> Outcome {
    match e.reply_to_user {
        None => Ok(t),
        Some(target) => if chain_goes_on(s, e, target) {
            if counter(s, CHAIN_LEN@) == i64::MAX {
                Err(t)
            } else {
                Ok(record_chain(t, e, target, (counter(s, CHAIN_LEN@) + 1) as i64))
            }
        } else {
            let a = with_state(t, e.chat, CHAIN_A@, e.user);
            let b = with_state(a, e.chat, CHAIN_B@, target);
            Ok(record_chain(with_state(b, e.chat, CHAIN_STARTED_AT@, e.created_at), e, target, 1))
        },
    }
}

pub open spec fn count_mentions(t: Tables, e: Event, targets: Seq<i64>) -> Outcome
    decreases targets.len(),
{
    if targets.len() == 0 {
        Ok(t)
    } else {
        then(
            count_mentions(t, e, targets.drop_last()),
            |t1: Tables| raise_if(targets.last() != e.user, t1, e.chat, e.user, mention_key(targets.last())),
        )
    }
}

/// The counters and the chat state after the message is counted, given the
/// members it is aimed at and the chat state read before counting.
pub open spec fn applied(t: Tables, e: Event, targets: Seq<i64>, s: Map<Seq<char>, i64>) -> Outcome {
    let o1 = count_message(t, e);
    let o2 = then(o1, |t1: Tables| count_words(t1, e));
    let o3 = then(o2, |t2: Tables| settle_apology(t2, e));
    let o4 = then(o3, |t3: Tables| settle_streak(t3, e));
    let o5 = then(o4, |t4: Tables| settle_ping(t4, e, targets));
    let o6 = then(o5, |t5: Tables| settle_call(t5, e, s));
    let o7 = then(o6, |t6: Tables| settle_monologue(t6, e, s));
    let o8 = then(o7, |t7: Tables| settle_chain(t7, e, s));
    let o9 = then(o8, |t8: Tables| count_mentions(t8, e, targets));
    then(o9, |t9: Tables| Ok(with_state(t9, e.chat, LAST_MESSAGE_ID@, e.message_id as i64)))
}

/// The statement result matches the outcome: it went through or was refused
/// as the outcome says, and the store holds the outcome's tables.
pub open spec fn follows(r: Result<(), StoreError>, s: Store, o: Outcome) -> bool {
    match o {
        Ok(t) => r is Ok && tables_of(s) == t,
        Err(t) => r is Err && tables_of(s) == t,
    }
}

/// The value at `key` of the chat state, zero when it was never set.
pub open spec fn seen_in(s: Store, chat: i64) -> i64 {
    counter(s.chat_state(chat), LAST_MESSAGE_ID@)
}

/// The list only grows along its length.
pub open spec fn strictly_increasing(s: Seq<i64>) -> bool {
    forall|i: int, j: int| 0 <= i < j < s.len() ==> s[i] < s[j]
}

/// The member picked for a mention: none for a mention by id; for a mention
/// by username, a member who goes by it, or none when nobody does.
pub open spec fn picked_well(m: Map<(i64, i64), MemberInfo>, chat: i64, mention: MentionOf, pick: Option<i64>) -> bool {
    match mention {
        MentionOf::Username(name) => match pick {
            Some(user) => goes_by(m, chat, user, name),
            None => forall|user: i64| !goes_by(m, chat, user, name),
        },
        MentionOf::Id(_) => pick is None,
    }
}

pub open spec fn resolves(m: Map<(i64, i64), MemberInfo>, chat: i64, mentions: Seq<MentionOf>, picks: Seq<Option<i64>>) -> bool {
    &&& picks.len() == mentions.len()
    &&& forall|i: int| 0 <= i < mentions.len() ==> picked_well(m, chat, #[trigger] mentions[i], picks[i])
}

/// The mention (with its pick) names the member `x`.
pub open spec fn names(mention: MentionOf, pick: Option<i64>, x: i64) -> bool {
    mention == MentionOf::Id(x) || pick == Some(x)
}

/// The message is aimed at `x`: it replies to them or names them.
pub open spec fn aims_at(e: Event, mentions: Seq<MentionOf>, picks: Seq<Option<i64>>, x: i64) -> bool {
    e.reply_to_user == Some(x) || exists|i: int| 0 <= i < mentions.len() && #[trigger] names(mentions[i], picks[i], x)
}

/// `ts` lists, in increasing order and each once, the members the message is
/// aimed at, a mention by username standing for one member who goes by it.
pub open spec fn valid_targets(m: Map<(i64, i64), MemberInfo>, e: Event, ts: Seq<i64>) -> bool {
    &&& strictly_increasing(ts)
    &&& exists|picks: Seq<Option<i64>>| #[trigger] resolves(m, e.chat, mention_views(e.mentions@), picks)
        && forall|x: i64| ts.contains(x) <==> aims_at(e, mention_views(e.mentions@), picks, x)
}

/// What the store records of the author of the message.
pub open spec fn author_info(e: Event) -> MemberInfo {
    (opt_view(e.username), e.first_name@, rfc3339_of(e.created_at))
}

/// Adds the value to an increasing list, unless it is there already.
fn add_sorted(v: &mut Vec<i64>, x: i64)
    requires
        strictly_increasing(old(v)@),
    ensures
        strictly_increasing(final(v)@),
        forall|y: i64| final(v)@.contains(y) <==> (old(v)@.contains(y) || y == x),
{
    let mut p: usize = 0;
    while p < v.len() && v[p] < x
        invariant
            p <= v@.len(),
            v@ == old(v)@,
            strictly_increasing(v@),
            forall|i: int| 0 <= i < p ==> v@[i] < x,
        decreases v@.len() - p,
    {
        p = p + 1;
    }
    if p < v.len() && v[p] == x {
        assert(v@[p as int] == x);
        assert(v@.contains(x));
        return;
    }
    let ghost before = v@;
    v.insert(p, x);
    proof {
        assert(v@ =~= before.insert(p as int, x));
        assert(before == old(v)@);
        assert forall|y: i64| #![trigger v@.contains(y)] #![trigger old(v)@.contains(y)] v@.contains(y) <==> (old(v)@.contains(y) || y == x) by {
            if v@.contains(y) {
                let k = choose|k: int| 0 <= k < v@.len() && v@[k] == y;
                if k < p {
                    assert(before[k] == y);
                } else if k > p {
                    assert(before[k - 1] == y);
                }
            }
            if before.contains(y) {
                let k = choose|k: int| 0 <= k < before.len() && before[k] == y;
                if k < p {
                    assert(v@[k] == y);
                } else {
                    assert(v@[k + 1] == y);
                }
            }
            if y == x {
                assert(v@[p as int] == y);
            }
        }
    }
}

/// The members the message is aimed at.
fn targets(store: &Store, e: &Event) -> (ts: Vec<i64>)
    ensures
        valid_targets(store.member_map(), *e, ts@),
{
    let ghost m = store.member_map();
    let ghost mentions = mention_views(e.mentions@);
    let mut ts: Vec<i64> = Vec::new();
    match e.reply_to_user {
        Some(target) => {
            add_sorted(&mut ts, target);
        },
        None => {},
    }
    let ghost mut picks: Seq<Option<i64>> = Seq::empty();
    let mut i: usize = 0;
    while i < e.mentions.len()
        invariant
            i <= e.mentions@.len(),
            m == store.member_map(),
            mentions == mention_views(e.mentions@),
            strictly_increasing(ts@),
            resolves(m, e.chat, mentions.take(i as int), picks),
            forall|x: i64| ts@.contains(x) <==> aims_at(*e, mentions.take(i as int), picks, x),
        decreases e.mentions@.len() - i,
    {
        let ghost before = ts@;
        let ghost old_picks = picks;
        assert(mentions[i as int] == e.mentions@[i as int]@);
        match &e.mentions[i] {
            Mention::Id(id) => {
                add_sorted(&mut ts, *id);
                proof {
                    picks = old_picks.push(None);
                }
            },
            Mention::Username(name) => {
                let found = store.member_by_username(e.chat, name.as_str());
                match found {
                    Some(user) => {
                        add_sorted(&mut ts, user);
                    },
                    None => {},
                }
                proof {
                    picks = old_picks.push(found);
                }
            },
        }
        proof {
            let now = mentions.take(i + 1);
            assert(now =~= mentions.take(i as int).push(mentions[i as int]));
            assert forall|k: int| 0 <= k < now.len() implies picked_well(m, e.chat, #[trigger] now[k], picks[k]) by {
                if k < i {
                    assert(now[k] == mentions.take(i as int)[k]);
                    assert(picks[k] == old_picks[k]);
                }
            }
            assert forall|x: i64| ts@.contains(x) <==> aims_at(*e, now, picks, x) by {
                if aims_at(*e, mentions.take(i as int), old_picks, x) && e.reply_to_user != Some(x) {
                    let k = choose|k: int| 0 <= k < mentions.take(i as int).len() && #[trigger] names(mentions.take(i as int)[k], old_picks[k], x);
                    assert(names(now[k], picks[k], x));
                }
                if aims_at(*e, now, picks, x) && e.reply_to_user != Some(x) {
                    let k = choose|k: int| 0 <= k < now.len() && #[trigger] names(now[k], picks[k], x);
                    if k < i {
                        assert(names(mentions.take(i as int)[k], old_picks[k], x));
                    }
                }
                if names(now[i as int], picks[i as int], x) {
                    assert(aims_at(*e, now, picks, x));
                }
            }
        }
        i = i + 1;
    }
    proof {
        assert(mentions.take(i as int) =~= mentions);
    }
    ts
}

/// The name of the counter of how often the member mentioned `target`.
fn mention_key_text(target: i64) -> (r: String)
    ensures
        r@ == mention_key(target),
{
    let mut v = chars_of(MENTION_PREFIX);
    let digits = number_text(target);
    let tail = chars_of(digits.as_str());
    extend(&mut v, &tail);
    string_of(&v)
}

fn raise_in(store: &mut Store, chat: i64, user: i64, key: &str) -> (r: Result<(), StoreError>)
    ensures
        follows(r, *final(store), raise(tables_of(*old(store)), chat, user, key@)),
        final(store).same_except(*old(store), set![Part::Stats]),
{
    match store.bump(chat, user, key, 1) {
        Ok(_) => Ok(()),
        Err(error) => Err(error),
    }
}

fn raise_in_if(b: bool, store: &mut Store, chat: i64, user: i64, key: &str) -> (r: Result<(), StoreError>)
    ensures
        follows(r, *final(store), raise_if(b, tables_of(*old(store)), chat, user, key@)),
        final(store).same_except(*old(store), set![Part::Stats]),
{
    if b {
        raise_in(store, chat, user, key)
    } else {
        Ok(())
    }
}

fn count_message_in(store: &mut Store, e: &Event) -> (r: Result<(), StoreError>)
    ensures
        follows(r, *final(store), count_message(tables_of(*old(store)), *e)),
        final(store).same_except(*old(store), set![Part::Stats, Part::State]),
{
    let night = e.hour_msk >= NIGHT_FROM_HOUR && e.hour_msk < NIGHT_TO_HOUR;
    let r1 = raise_in_if(night, store, e.chat, e.user, NIGHT_MESSAGES);
    if r1.is_err() {
        return r1;
    }
    let ghost t1 = tables_of(*store);
    let r2 = raise_in_if(e.len > LONG_MESSAGE_CHARS, store, e.chat, e.user, LONG_MESSAGES);
    if r2.is_err() {
        return r2;
    }
    let length: i64 = if (e.len as u64) <= 0x7fff_ffff_ffff_ffffu64 { e.len as i64 } else { 0x7fff_ffff_ffff_ffffi64 };
    if length > store.stat(e.chat, e.user, LONGEST_MESSAGE) {
        store.set_stat(e.chat, e.user, LONGEST_MESSAGE, length);
    }
    Ok(())
}

fn count_words_in(store: &mut Store, e: &Event) -> (r: Result<(), StoreError>)
    ensures
        follows(r, *final(store), count_words(tables_of(*old(store)), *e)),
        final(store).same_except(*old(store), set![Part::Stats, Part::State]),
{
    let r1 = raise_in_if(e.politics, store, e.chat, e.user, POLITICS);
    if r1.is_err() {
        return r1;
    }
    let r2 = raise_in_if(e.laugh_only, store, e.chat, e.user, LAUGH_ONLY);
    if r2.is_err() {
        return r2;
    }
    let r3 = raise_in_if(e.stream, store, e.chat, e.user, STREAM_MENTIONS);
    if r3.is_err() {
        return r3;
    }
    let r4 = raise_in_if(e.vinograd, store, e.chat, e.user, VINOGRAD_MENTIONS);
    if r4.is_err() {
        return r4;
    }
    raise_in_if(e.reply_to_bot, store, e.chat, e.user, REPLIES_TO_BOT)
}

fn settle_apology_in(store: &mut Store, e: &Event) -> (r: Result<(), StoreError>)
    ensures
        follows(r, *final(store), settle_apology(tables_of(*old(store)), *e)),
        final(store).same_except(*old(store), set![Part::Stats, Part::State]),
{
    let now = e.created_at;
    if e.apology {
        let last = store.stat(e.chat, e.user, LAST_MAT_AT);
        if last > 0 && (now as i128) - (last as i128) <= APOLOGY_WINDOW_SECONDS as i128 {
            let r1 = raise_in(store, e.chat, e.user, APOLOGIES);
            if r1.is_err() {
                return r1;
            }
            store.set_stat(e.chat, e.user, LAST_MAT_AT, 0);
            return Ok(());
        }
    }
    if e.mat {
        store.set_stat(e.chat, e.user, LAST_MAT_AT, now);
    }
    Ok(())
}

fn settle_streak_in(store: &mut Store, e: &Event) -> (r: Result<(), StoreError>)
    ensures
        follows(r, *final(store), settle_streak(tables_of(*old(store)), *e)),
        final(store).same_except(*old(store), set![Part::Stats, Part::State]),
{
    let r1 = raise_in(store, e.chat, e.user, UNANSWERED_STREAK);
    if r1.is_err() {
        return r1;
    }
    match e.reply_to_user {
        Some(target) => {
            if target != e.user {
                store.set_stat(e.chat, target, UNANSWERED_STREAK, 0);
            }
        },
        None => {},
    }
    Ok(())
}

fn ping_targets(store: &mut Store, e: &Event, targets: &Vec<i64>)
    ensures
        tables_of(*final(store)) == ping_all(tables_of(*old(store)), *e, targets@),
        final(store).same_except(*old(store), set![Part::Stats]),
{
    let ghost t0 = tables_of(*store);
    let ghost s0 = *store;
    let mut i: usize = 0;
    while i < targets.len()
        invariant
            i <= targets@.len(),
            tables_of(*store) == ping_all(t0, *e, targets@.take(i as int)),
            store.same_except(s0, set![Part::Stats]),
        decreases targets@.len() - i,
    {
        let target = targets[i];
        proof {
            assert(targets@.take(i + 1).drop_last() =~= targets@.take(i as int));
            assert(targets@.take(i + 1).last() == target);
        }
        if target != e.user && store.stat(e.chat, target, PINGED_AT) == 0 {
            store.set_stat(e.chat, target, PINGED_AT, e.created_at);
        }
        i = i + 1;
    }
    proof {
        assert(targets@.take(i as int) =~= targets@);
    }
}

fn settle_ping_in(store: &mut Store, e: &Event, targets: &Vec<i64>) -> (r: Result<(), StoreError>)
    ensures
        follows(r, *final(store), settle_ping(tables_of(*old(store)), *e, targets@)),
        final(store).same_except(*old(store), set![Part::Stats, Part::State]),
{
    let now = e.created_at;
    let pinged_at = store.stat(e.chat, e.user, PINGED_AT);
    if pinged_at > 0 {
        let ignored = (now as i128) - (pinged_at as i128) > PING_TIMEOUT_SECONDS as i128;
        let r1 = raise_in_if(ignored, store, e.chat, e.user, IGNORED_PINGS);
        if r1.is_err() {
            return r1;
        }
        store.set_stat(e.chat, e.user, PINGED_AT, 0);
    }
    ping_targets(store, e, targets);
    Ok(())
}

fn settle_call_in(store: &mut Store, e: &Event, state: &Stats) -> (r: Result<(), StoreError>)
    ensures
        follows(r, *final(store), settle_call(tables_of(*old(store)), *e, state@)),
        final(store).same_except(*old(store), set![Part::Stats, Part::State]),
{
    let now = e.created_at;
    let caller = state.get(CALL_BY);
    let called_at = state.get(CALL_AT);
    if caller != 0 {
        if (now as i128) - (called_at as i128) > CALL_TIMEOUT_SECONDS as i128 {
            let r1 = raise_in(store, e.chat, caller, UNANSWERED_CALLS);
            if r1.is_err() {
                return r1;
            }
            store.set_state(e.chat, CALL_BY, 0);
        } else if caller != e.user {
            store.set_state(e.chat, CALL_BY, 0);
        }
    }
    if e.call_to_play {
        store.set_state(e.chat, CALL_BY, e.user);
        store.set_state(e.chat, CALL_AT, now);
    }
    Ok(())
}

fn settle_monologue_in(store: &mut Store, e: &Event, state: &Stats) -> (r: Result<(), StoreError>)
    ensures
        follows(r, *final(store), settle_monologue(tables_of(*old(store)), *e, state@)),
        final(store).same_except(*old(store), set![Part::Stats, Part::State]),
{
    let previous = state.get(LAST_USER_ID);
    let run: i64 = if previous == e.user {
        let length = state.get(RUN_LEN);
        if length == 0x7fff_ffff_ffff_ffffi64 {
            return Err(StoreError::Overflow);
        }
        length + 1
    } else {
        1
    };
    store.set_state(e.chat, LAST_USER_ID, e.user);
    store.set_state(e.chat, RUN_LEN, run);
    raise_in_if(run == MONOLOGUE_RUN, store, e.chat, e.user, MONOLOGUES)
}

fn settle_chain_in(store: &mut Store, e: &Event, state: &Stats) -> (r: Result<(), StoreError>)
    ensures
        follows(r, *final(store), settle_chain(tables_of(*old(store)), *e, state@)),
        final(store).same_except(*old(store), set![Part::Stats, Part::State]),
{
    let target = match e.reply_to_user {
        Some(target) => target,
        None => {
            return Ok(());
        },
    };
    let now = e.created_at;
    let first = state.get(CHAIN_A);
    let second = state.get(CHAIN_B);
    let started = state.get(CHAIN_STARTED_AT);
    let same_pair = (first == e.user && second == target) || (first == target && second == e.user);
    let length: i64 = if same_pair && (now as i128) - (started as i128) <= CHAIN_WINDOW_SECONDS as i128 {
        let length = state.get(CHAIN_LEN);
        if length == 0x7fff_ffff_ffff_ffffi64 {
            return Err(StoreError::Overflow);
        }
        length + 1
    } else {
        store.set_state(e.chat, CHAIN_A, e.user);
        store.set_state(e.chat, CHAIN_B, target);
        store.set_state(e.chat, CHAIN_STARTED_AT, now);
        1
    };
    store.set_state(e.chat, CHAIN_LEN, length);
    store.set_stat(e.chat, e.user, CHAIN_LEN, length);
    store.set_stat(e.chat, target, CHAIN_LEN, length);
    Ok(())
}

/// Once the count of mentions stopped, it stays stopped where it was.
proof fn lemma_mentions_stop(t: Tables, e: Event, targets: Seq<i64>, k: int, stopped: Tables)
    requires
        0 <= k <= targets.len(),
        count_mentions(t, e, targets.take(k)) == Outcome::Err(stopped),
    ensures
        count_mentions(t, e, targets) == Outcome::Err(stopped),
    decreases targets.len() - k,
{
    if k < targets.len() {
        assert(targets.take(k + 1).drop_last() =~= targets.take(k));
        lemma_mentions_stop(t, e, targets, k + 1, stopped);
    } else {
        assert(targets.take(k) =~= targets);
    }
}

fn count_mentions_in(store: &mut Store, e: &Event, targets: &Vec<i64>) -> (r: Result<(), StoreError>)
    ensures
        follows(r, *final(store), count_mentions(tables_of(*old(store)), *e, targets@)),
        final(store).same_except(*old(store), set![Part::Stats, Part::State]),
{
    let ghost t0 = tables_of(*store);
    let ghost s0 = *store;
    let mut i: usize = 0;
    while i < targets.len()
        invariant
            i <= targets@.len(),
            t0 == tables_of(*old(store)),
            s0 == *old(store),
            count_mentions(t0, *e, targets@.take(i as int)) == Outcome::Ok(tables_of(*store)),
            store.same_except(s0, set![Part::Stats, Part::State]),
        decreases targets@.len() - i,
    {
        let target = targets[i];
        proof {
            assert(targets@.take(i + 1).drop_last() =~= targets@.take(i as int));
            assert(targets@.take(i + 1).last() == target);
        }
        let key = mention_key_text(target);
        let r1 = raise_in_if(target != e.user, store, e.chat, e.user, key.as_str());
        if r1.is_err() {
            proof {
                lemma_mentions_stop(t0, *e, targets@, i + 1, tables_of(*store));
            }
            return r1;
        }
        i = i + 1;
    }
    proof {
        assert(targets@.take(i as int) =~= targets@);
    }
    Ok(())
}

/// Counting message `e` took the store from `before` to `after` with
/// result `r`: a message the chat already counted changes nothing; another
/// one records its author and goes through the statements of `applied`.
pub open spec fn counts(before: Store, after: Store, e: Event, r: Result<bool, StoreError>) -> bool {
    if e.message_id as int <= seen_in(before, e.chat) {
        &&& r == Result::<bool, StoreError>::Ok(false)
        &&& tables_of(after) == tables_of(before)
        &&& after.member_map() == before.member_map()
    } else {
        &&& after.member_map() == before.member_map().insert((e.chat, e.user), author_info(e))
        &&& exists|ts: Seq<i64>| #[trigger] valid_targets(after.member_map(), e, ts) && match applied(
            tables_of(before),
            e,
            ts,
            before.chat_state(e.chat),
        ) {
            Ok(t) => r == Result::<bool, StoreError>::Ok(true) && tables_of(after) == t,
            Err(t) => r is Err && tables_of(after) == t,
        }
    }
}

/// Applies the message to the counters of its author and of the members it
/// is aimed at, and to the chat state, after recording its author.
///
/// Returns `false`, changing nothing, when the chat already counted a
/// message with this or a later id, which happens when Telegram redelivers
/// an update after a restart. Returns an error when a counter, or the length
/// of a run or of an exchange, would pass the largest 64-bit integer; the
/// statements before that one stay done.
pub fn apply(store: &mut Store, event: &Event) -> (r: Result<bool, StoreError>)
    requires
        representable(event.created_at as int),
    ensures
        counts(*old(store), *final(store), *event, r),
        final(store).same_except(*old(store), set![Part::Stats, Part::State, Part::Members]),
{
    let state = store.state(event.chat);
    let seen = state.get(LAST_MESSAGE_ID);
    if (event.message_id as i64) <= seen {
        return Ok(false);
    }
    let ghost s0 = *store;
    let ghost t0 = tables_of(*store);
    let at = match rfc3339(event.created_at) {
        Some(text) => text,
        None => String::new(),
    };
    let username: Option<&str> = match &event.username {
        Some(name) => Some(name.as_str()),
        None => None,
    };
    store.upsert_member(event.chat, event.user, username, event.first_name.as_str(), at.as_str());
    let ts = targets(store, event);
    let ghost e = *event;
    let ghost s = state@;
    let ghost o1 = count_message(t0, e);
    let ghost o2 = then(o1, |t1: Tables| count_words(t1, e));
    let ghost o3 = then(o2, |t2: Tables| settle_apology(t2, e));
    let ghost o4 = then(o3, |t3: Tables| settle_streak(t3, e));
    let ghost o5 = then(o4, |t4: Tables| settle_ping(t4, e, ts@));
    let ghost o6 = then(o5, |t5: Tables| settle_call(t5, e, s));
    let ghost o7 = then(o6, |t6: Tables| settle_monologue(t6, e, s));
    let ghost o8 = then(o7, |t7: Tables| settle_chain(t7, e, s));
    let ghost o9 = then(o8, |t8: Tables| count_mentions(t8, e, ts@));
    let ghost o10 = then(o9, |t9: Tables| Ok(with_state(t9, e.chat, LAST_MESSAGE_ID@, e.message_id as i64)));
    assert(o10 == applied(t0, e, ts@, s));
    assert(valid_targets(store.member_map(), *event, ts@));
    if count_message_in(store, event).is_err() {
        return Err(StoreError::Overflow);
    }
    if count_words_in(store, event).is_err() {
        return Err(StoreError::Overflow);
    }
    if settle_apology_in(store, event).is_err() {
        return Err(StoreError::Overflow);
    }
    if settle_streak_in(store, event).is_err() {
        return Err(StoreError::Overflow);
    }
    if settle_ping_in(store, event, &ts).is_err() {
        return Err(StoreError::Overflow);
    }
    if settle_call_in(store, event, &state).is_err() {
        return Err(StoreError::Overflow);
    }
    if settle_monologue_in(store, event, &state).is_err() {
        return Err(StoreError::Overflow);
    }
    if settle_chain_in(store, event, &state).is_err() {
        return Err(StoreError::Overflow);
    }
    if count_mentions_in(store, event, &ts).is_err() {
        return Err(StoreError::Overflow);
    }
    store.set_state(event.chat, LAST_MESSAGE_ID, event.message_id as i64);
    Ok(true)
}

} // verus!
