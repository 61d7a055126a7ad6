use vstd::prelude::*;

use crate::achievements::{earned, unlocks_all};
use crate::apply::{
    applied, at_night, length_of, count_mentions, count_message, count_words, counts, mention_key, ping_all, ping_ignored, raise_if,
    seen_in, settle_apology, settle_call, settle_chain, settle_monologue, settle_ping, settle_streak, stat_in,
    tables_of, then, valid_targets, with_stat, with_state, Outcome, Tables, APOLOGIES, CHAIN_LEN, IGNORED_PINGS,
    LAST_MAT_AT, LAST_MESSAGE_ID, LAUGH_ONLY, LONGEST_MESSAGE, LONG_MESSAGES, LONG_MESSAGE_CHARS, MONOLOGUES,
    NIGHT_MESSAGES, PINGED_AT, POLITICS, REPLIES_TO_BOT, STREAM_MENTIONS, UNANSWERED_CALLS, UNANSWERED_STREAK,
    VINOGRAD_MENTIONS,
};
use crate::cuckold::{
    drawn_on, drawn_today, drawn_user, moscow_day, plausible, rolls, Roll, CUCKOLD_BEST, CUCKOLD_DAY, CUCKOLD_DAYS, CUCKOLD_STREAK, CUCKOLD_USER,
};
use crate::event::Event;
use crate::cuckold::today_line;
use crate::html::escaped;
use crate::replies::{mentions_keyword, routed, text_view, Keyword};
use crate::sources::{MATTHEW_KEYWORD, STREAM_KEYWORD, VINOGRAD_KEYWORD};
use crate::update::Incoming;
use crate::rules::{all_achievements, counter, Achievement};
use crate::store::{
    after_remember, clamp_count, is_leaderboard, is_ranking, known_name, latest_of, opt_view, owned_codes, stores_message,
    MessageOwner, Standing, Store, StoreError,
};
use crate::standings::{lemma_ranks_before_total, lemma_sorted_unique, ranks_before};
use crate::chars::lemma_text_lt_total;

verus! {

/// Counting a message leaves its id as the last one the chat counted.
proof fn lemma_applied_marks(t: Tables, e: Event, ts: Seq<i64>, s: Map<Seq<char>, i64>, done: Tables)
    requires
        applied(t, e, ts, s) == Outcome::Ok(done),
    ensures
        done.1.contains_key((e.chat, LAST_MESSAGE_ID@)),
        done.1[(e.chat, LAST_MESSAGE_ID@)] == e.message_id as i64,
{
}

/// A message is counted once: after the chat counted it, counting the same
/// message again answers `false` and changes neither the counters, nor the
/// chat state, nor the members.
pub proof fn law_message_counted_once(
    before: Store,
    mid: Store,
    after: Store,
    e: Event,
    first: Result<bool, StoreError>,
    second: Result<bool, StoreError>,
)
    requires
        counts(before, mid, e, first),
        first == Result::<bool, StoreError>::Ok(true),
        counts(mid, after, e, second),
    ensures
        second == Result::<bool, StoreError>::Ok(false),
        tables_of(after) == tables_of(mid),
        after.member_map() == mid.member_map(),
{
    if e.message_id as int <= seen_in(before, e.chat) {
        assert(false);
    }
    let ts = choose|ts: Seq<i64>| #[trigger] valid_targets(mid.member_map(), e, ts) && match applied(
        tables_of(before),
        e,
        ts,
        before.chat_state(e.chat),
    ) {
        Ok(t) => first == Result::<bool, StoreError>::Ok(true) && tables_of(mid) == t,
        Err(t) => first is Err && tables_of(mid) == t,
    };
    let done = tables_of(mid);
    lemma_applied_marks(tables_of(before), e, ts, before.chat_state(e.chat), done);
    assert(mid.chat_state(e.chat).contains_key(LAST_MESSAGE_ID@));
    assert(seen_in(mid, e.chat) == e.message_id as i64);
}

/// Once a chat counted a message, every message of that chat with the same
/// or an earlier id is skipped: it answers `false` and changes neither the
/// counters, nor the chat state, nor the members.
pub proof fn law_earlier_message_skipped(
    before: Store,
    mid: Store,
    after: Store,
    e: Event,
    later: Event,
    second: Result<bool, StoreError>,
)
    requires
        counts(before, mid, e, Result::<bool, StoreError>::Ok(true)),
        later.chat == e.chat,
        later.message_id <= e.message_id,
        counts(mid, after, later, second),
    ensures
        seen_in(mid, e.chat) == e.message_id as i64,
        second == Result::<bool, StoreError>::Ok(false),
        tables_of(after) == tables_of(mid),
        after.member_map() == mid.member_map(),
{
    let ts = choose|ts: Seq<i64>| #[trigger] valid_targets(mid.member_map(), e, ts) && match applied(
        tables_of(before),
        e,
        ts,
        before.chat_state(e.chat),
    ) {
        Ok(t) => tables_of(mid) == t,
        Err(_) => false,
    };
    lemma_applied_marks(tables_of(before), e, ts, before.chat_state(e.chat), tables_of(mid));
    assert(mid.chat_state(e.chat).contains_key(LAST_MESSAGE_ID@));
}

/// The first `/cuckold` of a Moscow day draws; every later call that day
/// repeats the same member, changing nothing (given that the winner's id is
/// not zero, the value that stands for "nobody drawn").
pub proof fn law_draws_once_a_day(
    before: Store,
    mid: Store,
    after: Store,
    chat: i64,
    at: i64,
    later: i64,
    first: Roll,
    second: Result<Option<Roll>, StoreError>,
)
    requires
        plausible(at as int),
        rolls(before, mid, chat, at, Result::<Option<Roll>, StoreError>::Ok(Some(first))),
        first.fresh,
        first.user != 0,
        moscow_day(later as int) == moscow_day(at as int),
        rolls(mid, after, chat, later, second),
    ensures
        second matches Ok(Some(again)) && again.user == first.user && !again.fresh,
        tables_of(after) == tables_of(mid),
{
    assert(!drawn_today(before, chat, at as int));
    assert(moscow_day(at as int) as i64 == moscow_day(at as int));
    assert(mid.chat_state(chat).contains_key(CUCKOLD_USER@));
    assert(drawn_user(mid, chat) == first.user) by {
        reveal_strlit("cuckold_user");
        reveal_strlit("cuckold_day");
        assert(CUCKOLD_USER@ != CUCKOLD_DAY@) by {
            assert(CUCKOLD_USER@[8] != CUCKOLD_DAY@[8]);
        }
    }
    assert(drawn_today(mid, chat, later as int));
    assert(mid.member_map() == before.member_map());
    assert(known_name(mid.member_map(), chat, first.user) is Some);
}

/// Runs of consecutive days are tracked, and the longest is kept: after a
/// draw the best run of the winner is at least the current one and never
/// below the best before.
pub proof fn law_best_run_kept(before: Store, after: Store, chat: i64, at: i64, drawn: Roll)
    requires
        rolls(before, after, chat, at, Result::<Option<Roll>, StoreError>::Ok(Some(drawn))),
        drawn.fresh,
    ensures
        after.stat_of(chat, drawn.user, CUCKOLD_BEST@) >= drawn.streak,
        after.stat_of(chat, drawn.user, CUCKOLD_BEST@) >= before.stat_of(chat, drawn.user, CUCKOLD_BEST@),
        after.stat_of(chat, drawn.user, CUCKOLD_STREAK@) == drawn.streak,
{
    reveal_strlit("cuckold_best");
    reveal_strlit("cuckold_streak");
    reveal_strlit("cuckold_days");
    assert(CUCKOLD_BEST@ != CUCKOLD_STREAK@) by {
        assert(CUCKOLD_BEST@.len() != CUCKOLD_STREAK@.len());
    }
    assert(CUCKOLD_BEST@ != CUCKOLD_DAYS@) by {
        assert(CUCKOLD_BEST@[8] != CUCKOLD_DAYS@[8]);
    }
}

/// A fresh draw counts one more day for the winner, continues the run when
/// the winner was drawn the Moscow day before and starts it over otherwise,
/// keeps the longest run, and marks the winner and the day as drawn.
pub proof fn law_draw_recorded(before: Store, after: Store, chat: i64, at: i64, drawn: Roll)
    requires
        rolls(before, after, chat, at, Result::<Option<Roll>, StoreError>::Ok(Some(drawn))),
        drawn.fresh,
    ensures
        after.stat_of(chat, drawn.user, CUCKOLD_DAYS@) == before.stat_of(chat, drawn.user, CUCKOLD_DAYS@) + 1,
        after.stat_of(chat, drawn.user, CUCKOLD_STREAK@) == (if drawn_user(before, chat) == drawn.user
            && drawn_on(before, chat) == moscow_day(at as int) - 1 {
            before.stat_of(chat, drawn.user, CUCKOLD_STREAK@) + 1
        } else {
            1
        }),
        after.stat_of(chat, drawn.user, CUCKOLD_BEST@) == if drawn.streak > before.stat_of(chat, drawn.user, CUCKOLD_BEST@) {
            drawn.streak
        } else {
            before.stat_of(chat, drawn.user, CUCKOLD_BEST@)
        },
        drawn_user(after, chat) == drawn.user,
        drawn_on(after, chat) == moscow_day(at as int),
{
    reveal_strlit("cuckold_best");
    reveal_strlit("cuckold_streak");
    reveal_strlit("cuckold_days");
    reveal_strlit("cuckold_user");
    reveal_strlit("cuckold_day");
    assert(CUCKOLD_BEST@ != CUCKOLD_STREAK@) by {
        assert(CUCKOLD_BEST@.len() != CUCKOLD_STREAK@.len());
    }
    assert(CUCKOLD_BEST@ != CUCKOLD_DAYS@) by {
        assert(CUCKOLD_BEST@[8] != CUCKOLD_DAYS@[8]);
    }
    assert(CUCKOLD_STREAK@ != CUCKOLD_DAYS@) by {
        assert(CUCKOLD_STREAK@.len() != CUCKOLD_DAYS@.len());
    }
    assert(CUCKOLD_USER@ != CUCKOLD_DAY@) by {
        assert(CUCKOLD_USER@.len() != CUCKOLD_DAY@.len());
    }
    assert(after.chat_state(chat).contains_key(CUCKOLD_USER@));
    assert(after.chat_state(chat).contains_key(CUCKOLD_DAY@));
}

/// No achievement is given twice: after the member got what they earned,
/// none of it is earned again.
pub proof fn law_no_achievement_twice(
    before: Map<(i64, i64, Seq<char>), Seq<char>>,
    after: Map<(i64, i64, Seq<char>), Seq<char>>,
    stats: Map<Seq<char>, i64>,
    chat: i64,
    user: i64,
    at: Seq<char>,
    a: Achievement,
)
    requires
        unlocks_all(before, after, chat, user, earned(before, stats, chat, user), at),
        earned(before, stats, chat, user).contains(a),
    ensures
        !earned(after, stats, chat, user).contains(a),
{
    let list = earned(before, stats, chat, user);
    let i = choose|i: int| 0 <= i < list.len() && list[i] == a;
    assert(after.contains_key((chat, user, list[i].code_spec())));
    assert(owned_codes(after, chat, user).contains(a.code_spec()));
    let codes = owned_codes(after, chat, user);
    let keep = |x: Achievement| !codes.contains(x.code_spec()) && x.unlocked_spec(stats, codes.len());
    broadcast use vstd::seq_lib::group_filter_ensures;
    if earned(after, stats, chat, user).contains(a) {
        let k = choose|k: int| 0 <= k < earned(after, stats, chat, user).len() && earned(after, stats, chat, user)[k] == a;
        assert(keep(all_achievements().filter(keep)[k]));
    }
}

/// Writing a message again without a quote never clears the quote it
/// already carries.
pub proof fn law_quote_never_cleared(m: Map<(i64, i32), MessageOwner>, chat: i64, message: i32, user: i64, quote: i64)
    requires
        m.contains_key((chat, message)),
        m[(chat, message)].quote == Some(quote),
        after_remember(m, chat, message, user, None).contains_key((chat, message)),
    ensures
        after_remember(m, chat, message, user, None)[(chat, message)].quote == Some(quote),
        after_remember(m, chat, message, user, None)[(chat, message)].user == user,
{
}

/// A message Matthew wrote is stored once: once it was stored, offering the
/// same message again is answered as already known and changes nothing.
pub proof fn law_message_stored_once(
    before: Store,
    mid: Store,
    after: Store,
    chat: i64,
    message: i32,
    sent_at: Seq<char>,
    text: Seq<char>,
    later_at: Seq<char>,
    later_text: Seq<char>,
    second: Result<bool, StoreError>,
)
    requires
        stores_message(before, mid, chat, message, sent_at, text, Result::<bool, StoreError>::Ok(true)),
        stores_message(mid, after, chat, message, later_at, later_text, second),
    ensures
        second == Result::<bool, StoreError>::Ok(false),
        after.waiting_list() == mid.waiting_list(),
        after.next_waiting_id() == mid.next_waiting_id(),
{
    let n = before.waiting_list().len() as int;
    assert((mid.waiting_list()[n].1, mid.waiting_list()[n].2) == (chat, message));
}

/// The users a standing lists, in order.
pub open spec fn users_of(r: Seq<Standing>) -> Seq<i64> {
    r.map_values(|x: Standing| x.user)
}

/// A ranking is fixed by the store: any two rankings of the same chat by the
/// same counter list the same users in the same order, with the same counts
/// and names, so every call gives the same order.
pub proof fn law_ranking_determined(s: Store, chat: i64, key: Seq<char>, a: Seq<Standing>, b: Seq<Standing>)
    requires
        is_ranking(s, chat, key, a),
        is_ranking(s, chat, key, b),
    ensures
        users_of(a) == users_of(b),
        forall|i: int| 0 <= i < a.len() ==> (#[trigger] a[i]).count == b[i].count && opt_view(a[i].name) == opt_view(b[i].name),
{
    let cnt = |u: i64| s.stat_map()[(chat, u, key)];
    let before = |u: i64, v: i64| cnt(u) > cnt(v) || (cnt(u) == cnt(v) && u < v);
    let ua = users_of(a);
    let ub = users_of(b);
    assert forall|i: int, j: int| 0 <= i < j < ua.len() implies before(#[trigger] ua[i], #[trigger] ua[j]) by {
        assert(s.stat_map().contains_key((chat, a[i].user, key)));
        assert(s.stat_map().contains_key((chat, a[j].user, key)));
        assert(ua[i] == a[i].user && ua[j] == a[j].user);
        assert(a[i].count > a[j].count || (a[i].count == a[j].count && a[i].user < a[j].user));
    }
    assert forall|i: int, j: int| 0 <= i < j < ub.len() implies before(#[trigger] ub[i], #[trigger] ub[j]) by {
        assert(s.stat_map().contains_key((chat, b[i].user, key)));
        assert(s.stat_map().contains_key((chat, b[j].user, key)));
        assert(ub[i] == b[i].user && ub[j] == b[j].user);
        assert(b[i].count > b[j].count || (b[i].count == b[j].count && b[i].user < b[j].user));
    }
    assert forall|x: i64| ua.contains(x) <==> ub.contains(x) by {
        if ua.contains(x) {
            let i = choose|i: int| 0 <= i < ua.len() && ua[i] == x;
            assert(a[i].user == x);
            assert(s.stat_map().contains_key((chat, a[i].user, key)));
            let j = choose|j: int| 0 <= j < b.len() && #[trigger] b[j].user == x;
            assert(ub[j] == x);
        }
        if ub.contains(x) {
            let i = choose|i: int| 0 <= i < ub.len() && ub[i] == x;
            assert(b[i].user == x);
            assert(s.stat_map().contains_key((chat, b[i].user, key)));
            let j = choose|j: int| 0 <= j < a.len() && #[trigger] a[j].user == x;
            assert(ua[j] == x);
        }
    }
    lemma_sorted_unique(ua, ub, before);
    assert(a.len() == ua.len() && b.len() == ub.len());
    assert forall|i: int| 0 <= i < a.len() implies (#[trigger] a[i]).count == b[i].count && opt_view(a[i].name) == opt_view(b[i].name) by {
        assert(ua[i] == ub[i]);
        assert(a[i].user == b[i].user);
        assert(s.stat_map().contains_key((chat, a[i].user, key)));
        assert(s.stat_map().contains_key((chat, b[i].user, key)));
    }
}

/// The leaderboard is fixed by the store: any two leaderboards of the same
/// chat list the same members in the same order, with the same counts and
/// names.
pub proof fn law_leaderboard_determined(s: Store, chat: i64, a: Seq<Standing>, b: Seq<Standing>)
    requires
        is_leaderboard(s, chat, a),
        is_leaderboard(s, chat, b),
    ensures
        users_of(a) == users_of(b),
        forall|i: int| 0 <= i < a.len() ==> (#[trigger] a[i]).count == b[i].count && opt_view(a[i].name) == opt_view(b[i].name),
{
    let m = s.achievement_map();
    let key = |u: i64| (clamp_count(owned_codes(m, chat, u).len()), latest_of(m, chat, u), u);
    let before = |u: i64, v: i64| ranks_before(key(u), key(v));
    let ua = users_of(a);
    let ub = users_of(b);
    assert forall|x: i64| !#[trigger] before(x, x) by {
        lemma_text_lt_total(key(x).1, key(x).1);
    }
    assert forall|x: i64, y: i64| #[trigger] before(x, y) ==> !before(y, x) by {
        if x != y {
            lemma_ranks_before_total(key(x), key(y));
        } else {
            lemma_text_lt_total(key(x).1, key(x).1);
        }
    }
    assert forall|x: i64, y: i64| x != y ==> #[trigger] before(x, y) || before(y, x) by {
        if x != y {
            lemma_ranks_before_total(key(x), key(y));
        }
    }
    assert forall|i: int, j: int| 0 <= i < j < ua.len() implies before(#[trigger] ua[i], #[trigger] ua[j]) by {
        assert(a[i].user == ua[i] && a[j].user == ua[j]);
        assert(a[i].count == clamp_count(owned_codes(m, chat, a[i].user).len()));
        assert(a[j].count == clamp_count(owned_codes(m, chat, a[j].user).len()));
        assert(ranks_before(
            (a[i].count, latest_of(m, chat, a[i].user), a[i].user),
            (a[j].count, latest_of(m, chat, a[j].user), a[j].user),
        ));
        assert(key(ua[i]) == (a[i].count, latest_of(m, chat, a[i].user), a[i].user));
        assert(key(ua[j]) == (a[j].count, latest_of(m, chat, a[j].user), a[j].user));
    }
    assert forall|i: int, j: int| 0 <= i < j < ub.len() implies before(#[trigger] ub[i], #[trigger] ub[j]) by {
        assert(b[i].user == ub[i] && b[j].user == ub[j]);
        assert(b[i].count == clamp_count(owned_codes(m, chat, b[i].user).len()));
        assert(b[j].count == clamp_count(owned_codes(m, chat, b[j].user).len()));
        assert(ranks_before(
            (b[i].count, latest_of(m, chat, b[i].user), b[i].user),
            (b[j].count, latest_of(m, chat, b[j].user), b[j].user),
        ));
        assert(key(ub[i]) == (b[i].count, latest_of(m, chat, b[i].user), b[i].user));
        assert(key(ub[j]) == (b[j].count, latest_of(m, chat, b[j].user), b[j].user));
    }
    assert forall|x: i64| ua.contains(x) <==> ub.contains(x) by {
        if ua.contains(x) {
            let i = choose|i: int| 0 <= i < ua.len() && ua[i] == x;
            assert(a[i].user == x);
            let j = choose|j: int| 0 <= j < b.len() && #[trigger] b[j].user == x;
            assert(ub[j] == x);
        }
        if ub.contains(x) {
            let i = choose|i: int| 0 <= i < ub.len() && ub[i] == x;
            assert(b[i].user == x);
            let j = choose|j: int| 0 <= j < a.len() && #[trigger] a[j].user == x;
            assert(ua[j] == x);
        }
    }
    lemma_sorted_unique(ua, ub, before);
    assert(a.len() == ua.len() && b.len() == ub.len());
    assert forall|i: int| 0 <= i < a.len() implies (#[trigger] a[i]).count == b[i].count && opt_view(a[i].name) == opt_view(b[i].name) by {
        assert(ua[i] == ub[i]);
        assert(a[i].user == b[i].user);
    }
}

/// Every member's counter at `key` is the same in both tables.
pub open spec fn same_stat(a: Tables, b: Tables, key: Seq<char>) -> bool {
    forall|c: i64, u: i64| #[trigger] stat_in(b, c, u, key) == stat_in(a, c, u, key)
}

/// A counter that no statement after the word counts writes.
pub open spec fn quiet_key(key: Seq<char>) -> bool {
    &&& key != APOLOGIES@
    &&& key != LAST_MAT_AT@
    &&& key != UNANSWERED_STREAK@
    &&& key != PINGED_AT@
    &&& key != IGNORED_PINGS@
    &&& key != UNANSWERED_CALLS@
    &&& key != MONOLOGUES@
    &&& key != CHAIN_LEN@
    &&& (key.len() > 0 && key[0] != 'm')
}

proof fn lemma_ping_all_keeps(t: Tables, e: Event, targets: Seq<i64>, key: Seq<char>)
    requires
        key != PINGED_AT@,
    ensures
        same_stat(t, ping_all(t, e, targets), key),
    decreases targets.len(),
{
    if targets.len() > 0 {
        lemma_ping_all_keeps(t, e, targets.drop_last(), key);
        let p = ping_all(t, e, targets.drop_last());
        let q = ping_all(t, e, targets);
        assert forall|c: i64, u: i64| #[trigger] stat_in(q, c, u, key) == stat_in(t, c, u, key) by {
            assert(stat_in(q, c, u, key) == stat_in(p, c, u, key));
        }
    }
}

proof fn lemma_mentions_keep(t: Tables, e: Event, targets: Seq<i64>, key: Seq<char>, done: Tables)
    requires
        key.len() > 0 && key[0] != 'm',
        count_mentions(t, e, targets) == Outcome::Ok(done),
    ensures
        same_stat(t, done, key),
    decreases targets.len(),
{
    reveal_strlit("mention:");
    if targets.len() > 0 {
        let o = count_mentions(t, e, targets.drop_last());
        match o {
            Ok(t1) => {
                lemma_mentions_keep(t, e, targets.drop_last(), key, t1);
                let k = mention_key(targets.last());
                assert(k[0] == 'm');
                assert(k != key);
                assert(raise_if(targets.last() != e.user, t1, e.chat, e.user, k) == Outcome::Ok(done));
                assert forall|c: i64, u: i64| #[trigger] stat_in(done, c, u, key) == stat_in(t, c, u, key) by {
                    assert(stat_in(done, c, u, key) == stat_in(t1, c, u, key));
                }
            },
            Err(_) => {},
        }
    }
}

/// Counting a message that went through: the counts of the message itself,
/// then of its words, and every later statement leaves a quiet counter.
proof fn lemma_applied_steps(t: Tables, e: Event, ts: Seq<i64>, st: Map<Seq<char>, i64>, done: Tables, key: Seq<char>) -> (r: (Tables, Tables))
    requires
        applied(t, e, ts, st) == Outcome::Ok(done),
        quiet_key(key),
    ensures
        count_message(t, e) == Outcome::Ok(r.0),
        count_words(r.0, e) == Outcome::Ok(r.1),
        same_stat(r.1, done, key),
{
    let o1 = count_message(t, e);
    let t1 = match o1 { Ok(x) => x, Err(x) => x };
    let o2 = then(o1, |a: Tables| count_words(a, e));
    let t2 = match o2 { Ok(x) => x, Err(x) => x };
    let o3 = then(o2, |a: Tables| settle_apology(a, e));
    let t3 = match o3 { Ok(x) => x, Err(x) => x };
    let o4 = then(o3, |a: Tables| settle_streak(a, e));
    let t4 = match o4 { Ok(x) => x, Err(x) => x };
    let o5 = then(o4, |a: Tables| settle_ping(a, e, ts));
    let t5 = match o5 { Ok(x) => x, Err(x) => x };
    let o6 = then(o5, |a: Tables| settle_call(a, e, st));
    let t6 = match o6 { Ok(x) => x, Err(x) => x };
    let o7 = then(o6, |a: Tables| settle_monologue(a, e, st));
    let t7 = match o7 { Ok(x) => x, Err(x) => x };
    let o8 = then(o7, |a: Tables| settle_chain(a, e, st));
    let t8 = match o8 { Ok(x) => x, Err(x) => x };
    let o9 = then(o8, |a: Tables| count_mentions(a, e, ts));
    assert(o9 is Ok);
    assert(o8 is Ok);
    assert(o7 is Ok);
    assert(o6 is Ok);
    assert(o5 is Ok);
    assert(o4 is Ok);
    assert(o3 is Ok);
    assert(o2 is Ok);
    assert(o1 is Ok);
    let t9 = match o9 { Ok(x) => x, Err(x) => x };
    assert(done == with_state(t9, e.chat, LAST_MESSAGE_ID@, e.message_id as i64));
    // each statement after the word counts leaves the counter alone
    assert(same_stat(t2, t3, key));
    assert(same_stat(t3, t4, key));
    if stat_in(t4, e.chat, e.user, PINGED_AT@) > 0 {
        let o = raise_if(ping_ignored(t4, e), t4, e.chat, e.user, IGNORED_PINGS@);
        let u = match o { Ok(x) => x, Err(x) => x };
        lemma_ping_all_keeps(with_stat(u, e.chat, e.user, PINGED_AT@, 0), e, ts, key);
    } else {
        lemma_ping_all_keeps(t4, e, ts, key);
    }
    assert(same_stat(t4, t5, key));
    assert(same_stat(t5, t6, key));
    assert(same_stat(t6, t7, key));
    assert(same_stat(t7, t8, key));
    lemma_mentions_keep(t8, e, ts, key, t9);
    assert(same_stat(t9, done, key));
    (t1, t2)
}

/// How far the member has come toward the achievement: the current value
/// its progress is measured by.
pub open spec fn current(a: Achievement, s: Store, chat: i64, user: i64) -> i64 {
    match a.progress_spec(s.member_stats(chat, user)) {
        Some((value, _)) => value,
        None => 0,
    }
}

proof fn lemma_counter_is_stat(s: Store, chat: i64, user: i64, key: Seq<char>)
    ensures
        counter(s.member_stats(chat, user), key) == stat_in(tables_of(s), chat, user, key),
{
}

/// The keys the message and word counts raise are distinct, and no later
/// statement writes them.
proof fn lemma_counting_keys()
    ensures
        quiet_key(NIGHT_MESSAGES@),
        quiet_key(LONG_MESSAGES@),
        quiet_key(LONGEST_MESSAGE@),
        quiet_key(POLITICS@),
        quiet_key(LAUGH_ONLY@),
        quiet_key(STREAM_MENTIONS@),
        quiet_key(VINOGRAD_MENTIONS@),
        quiet_key(REPLIES_TO_BOT@),
        NIGHT_MESSAGES@ != LONG_MESSAGES@,
        NIGHT_MESSAGES@ != LONGEST_MESSAGE@,
        NIGHT_MESSAGES@ != POLITICS@,
        NIGHT_MESSAGES@ != LAUGH_ONLY@,
        NIGHT_MESSAGES@ != STREAM_MENTIONS@,
        NIGHT_MESSAGES@ != VINOGRAD_MENTIONS@,
        NIGHT_MESSAGES@ != REPLIES_TO_BOT@,
        LONG_MESSAGES@ != LONGEST_MESSAGE@,
        LONG_MESSAGES@ != POLITICS@,
        LONG_MESSAGES@ != LAUGH_ONLY@,
        LONG_MESSAGES@ != STREAM_MENTIONS@,
        LONG_MESSAGES@ != VINOGRAD_MENTIONS@,
        LONG_MESSAGES@ != REPLIES_TO_BOT@,
        LONGEST_MESSAGE@ != POLITICS@,
        LONGEST_MESSAGE@ != LAUGH_ONLY@,
        LONGEST_MESSAGE@ != STREAM_MENTIONS@,
        LONGEST_MESSAGE@ != VINOGRAD_MENTIONS@,
        LONGEST_MESSAGE@ != REPLIES_TO_BOT@,
        POLITICS@ != LAUGH_ONLY@,
        POLITICS@ != STREAM_MENTIONS@,
        POLITICS@ != VINOGRAD_MENTIONS@,
        POLITICS@ != REPLIES_TO_BOT@,
        LAUGH_ONLY@ != STREAM_MENTIONS@,
        LAUGH_ONLY@ != VINOGRAD_MENTIONS@,
        LAUGH_ONLY@ != REPLIES_TO_BOT@,
        STREAM_MENTIONS@ != VINOGRAD_MENTIONS@,
        STREAM_MENTIONS@ != REPLIES_TO_BOT@,
        VINOGRAD_MENTIONS@ != REPLIES_TO_BOT@,
        "night_messages"@ == NIGHT_MESSAGES@,
        "long_messages"@ == LONG_MESSAGES@,
        "longest_message"@ == LONGEST_MESSAGE@,
        "politics"@ == POLITICS@,
        "laugh_only"@ == LAUGH_ONLY@,
        "stream_mentions"@ == STREAM_MENTIONS@,
        "vinograd_mentions"@ == VINOGRAD_MENTIONS@,
        "replies_to_bot"@ == REPLIES_TO_BOT@,
{
    reveal_strlit("night_messages");
    reveal_strlit("long_messages");
    reveal_strlit("longest_message");
    reveal_strlit("politics");
    reveal_strlit("laugh_only");
    reveal_strlit("stream_mentions");
    reveal_strlit("vinograd_mentions");
    reveal_strlit("replies_to_bot");
    reveal_strlit("last_mat_at");
    reveal_strlit("apologies");
    reveal_strlit("unanswered_streak");
    reveal_strlit("pinged_at");
    reveal_strlit("ignored_pings");
    reveal_strlit("unanswered_calls");
    reveal_strlit("monologues");
    reveal_strlit("chain_len");
    assert(quiet_key(LONG_MESSAGES@)) by {
        assert(LONG_MESSAGES@ != LAST_MAT_AT@) by {
            assert(LONG_MESSAGES@.len() != LAST_MAT_AT@.len() || LONG_MESSAGES@[0] != LAST_MAT_AT@[0]);
        }
        assert(LONG_MESSAGES@ != APOLOGIES@) by {
            assert(LONG_MESSAGES@.len() != APOLOGIES@.len() || LONG_MESSAGES@[0] != APOLOGIES@[0]);
        }
        assert(LONG_MESSAGES@ != UNANSWERED_STREAK@) by {
            assert(LONG_MESSAGES@.len() != UNANSWERED_STREAK@.len() || LONG_MESSAGES@[0] != UNANSWERED_STREAK@[0]);
        }
        assert(LONG_MESSAGES@ != PINGED_AT@) by {
            assert(LONG_MESSAGES@.len() != PINGED_AT@.len() || LONG_MESSAGES@[0] != PINGED_AT@[0]);
        }
        assert(LONG_MESSAGES@ != IGNORED_PINGS@) by {
            assert(LONG_MESSAGES@.len() != IGNORED_PINGS@.len() || LONG_MESSAGES@[0] != IGNORED_PINGS@[0]);
        }
        assert(LONG_MESSAGES@ != UNANSWERED_CALLS@) by {
            assert(LONG_MESSAGES@.len() != UNANSWERED_CALLS@.len() || LONG_MESSAGES@[0] != UNANSWERED_CALLS@[0]);
        }
        assert(LONG_MESSAGES@ != MONOLOGUES@) by {
            assert(LONG_MESSAGES@.len() != MONOLOGUES@.len() || LONG_MESSAGES@[0] != MONOLOGUES@[0]);
        }
        assert(LONG_MESSAGES@ != CHAIN_LEN@) by {
            assert(LONG_MESSAGES@.len() != CHAIN_LEN@.len() || LONG_MESSAGES@[0] != CHAIN_LEN@[0]);
        }
    }
    assert(quiet_key(LONGEST_MESSAGE@)) by {
        assert(LONGEST_MESSAGE@ != LAST_MAT_AT@) by {
            assert(LONGEST_MESSAGE@.len() != LAST_MAT_AT@.len() || LONGEST_MESSAGE@[0] != LAST_MAT_AT@[0]);
        }
        assert(LONGEST_MESSAGE@ != APOLOGIES@) by {
            assert(LONGEST_MESSAGE@.len() != APOLOGIES@.len() || LONGEST_MESSAGE@[0] != APOLOGIES@[0]);
        }
        assert(LONGEST_MESSAGE@ != UNANSWERED_STREAK@) by {
            assert(LONGEST_MESSAGE@.len() != UNANSWERED_STREAK@.len() || LONGEST_MESSAGE@[0] != UNANSWERED_STREAK@[0]);
        }
        assert(LONGEST_MESSAGE@ != PINGED_AT@) by {
            assert(LONGEST_MESSAGE@.len() != PINGED_AT@.len() || LONGEST_MESSAGE@[0] != PINGED_AT@[0]);
        }
        assert(LONGEST_MESSAGE@ != IGNORED_PINGS@) by {
            assert(LONGEST_MESSAGE@.len() != IGNORED_PINGS@.len() || LONGEST_MESSAGE@[0] != IGNORED_PINGS@[0]);
        }
        assert(LONGEST_MESSAGE@ != UNANSWERED_CALLS@) by {
            assert(LONGEST_MESSAGE@.len() != UNANSWERED_CALLS@.len() || LONGEST_MESSAGE@[0] != UNANSWERED_CALLS@[0]);
        }
        assert(LONGEST_MESSAGE@ != MONOLOGUES@) by {
            assert(LONGEST_MESSAGE@.len() != MONOLOGUES@.len() || LONGEST_MESSAGE@[0] != MONOLOGUES@[0]);
        }
        assert(LONGEST_MESSAGE@ != CHAIN_LEN@) by {
            assert(LONGEST_MESSAGE@.len() != CHAIN_LEN@.len() || LONGEST_MESSAGE@[0] != CHAIN_LEN@[0]);
        }
    }
    assert(LONG_MESSAGES@[0] != IGNORED_PINGS@[0]);
    assert(STREAM_MENTIONS@[0] != LONGEST_MESSAGE@[0]);
    assert(VINOGRAD_MENTIONS@[0] != UNANSWERED_STREAK@[0]);
    assert(NIGHT_MESSAGES@[0] != REPLIES_TO_BOT@[0]);
    assert(LAUGH_ONLY@[0] != MONOLOGUES@[0]);
}

/// A counted message brings its author one step closer to "Софизм" exactly
/// when it is longer than `LONG_MESSAGE_CHARS` characters; a shorter one,
/// however long, leaves that progress where it was.
pub proof fn law_long_message_counts_toward_sofizm(before: Store, after: Store, e: Event)
    requires
        counts(before, after, e, Result::<bool, StoreError>::Ok(true)),
    ensures
        current(Achievement::Sofizm, after, e.chat, e.user) == current(Achievement::Sofizm, before, e.chat, e.user)
            + if e.len > LONG_MESSAGE_CHARS { 1int } else { 0int },
{
    lemma_counting_keys();
    let t = tables_of(before);
    let ts = choose|ts: Seq<i64>| #[trigger] valid_targets(after.member_map(), e, ts) && match applied(
        t,
        e,
        ts,
        before.chat_state(e.chat),
    ) {
        Ok(x) => tables_of(after) == x,
        Err(_) => false,
    };
    let done = tables_of(after);
    let (t1, t2) = lemma_applied_steps(t, e, ts, before.chat_state(e.chat), done, LONG_MESSAGES@);
    lemma_counter_is_stat(before, e.chat, e.user, LONG_MESSAGES@);
    lemma_counter_is_stat(after, e.chat, e.user, LONG_MESSAGES@);
    assert(stat_in(t2, e.chat, e.user, LONG_MESSAGES@) == stat_in(t1, e.chat, e.user, LONG_MESSAGES@));
    assert(stat_in(done, e.chat, e.user, LONG_MESSAGES@) == stat_in(t2, e.chat, e.user, LONG_MESSAGES@));
}

/// A counted message brings its author one step closer to "Я ссал стрим"
/// exactly when it mentions the stream, and one step closer to "Лысина"
/// exactly when it mentions Vinogradov; neither mention moves the other.
pub proof fn law_mentions_count_toward_their_achievements(before: Store, after: Store, e: Event)
    requires
        counts(before, after, e, Result::<bool, StoreError>::Ok(true)),
    ensures
        current(Achievement::SsalStream, after, e.chat, e.user) == current(Achievement::SsalStream, before, e.chat, e.user)
            + if e.stream { 1int } else { 0int },
        current(Achievement::Lysina, after, e.chat, e.user) == current(Achievement::Lysina, before, e.chat, e.user)
            + if e.vinograd { 1int } else { 0int },
{
    lemma_counting_keys();
    let t = tables_of(before);
    let ts = choose|ts: Seq<i64>| #[trigger] valid_targets(after.member_map(), e, ts) && match applied(
        t,
        e,
        ts,
        before.chat_state(e.chat),
    ) {
        Ok(x) => tables_of(after) == x,
        Err(_) => false,
    };
    let done = tables_of(after);
    let (t1, t2) = lemma_applied_steps(t, e, ts, before.chat_state(e.chat), done, STREAM_MENTIONS@);
    let (u1, u2) = lemma_applied_steps(t, e, ts, before.chat_state(e.chat), done, VINOGRAD_MENTIONS@);
    lemma_counter_is_stat(before, e.chat, e.user, STREAM_MENTIONS@);
    lemma_counter_is_stat(after, e.chat, e.user, STREAM_MENTIONS@);
    lemma_counter_is_stat(before, e.chat, e.user, VINOGRAD_MENTIONS@);
    lemma_counter_is_stat(after, e.chat, e.user, VINOGRAD_MENTIONS@);
    assert(stat_in(t1, e.chat, e.user, STREAM_MENTIONS@) == stat_in(t, e.chat, e.user, STREAM_MENTIONS@));
    assert(stat_in(t1, e.chat, e.user, VINOGRAD_MENTIONS@) == stat_in(t, e.chat, e.user, VINOGRAD_MENTIONS@));
    assert(stat_in(done, e.chat, e.user, STREAM_MENTIONS@) == stat_in(t2, e.chat, e.user, STREAM_MENTIONS@));
    assert(stat_in(done, e.chat, e.user, VINOGRAD_MENTIONS@) == stat_in(u2, e.chat, e.user, VINOGRAD_MENTIONS@));
}

/// The stats name a member as today's cuckold only for the Moscow day on
/// which the chat's draw was made: after a draw, asking on any other day
/// names nobody as today's, and asking the same day names the member drawn.
pub proof fn law_today_is_the_days_draw(before: Store, after: Store, chat: i64, at: i64, drawn: Roll, later: int)
    requires
        plausible(at as int),
        rolls(before, after, chat, at, Result::<Option<Roll>, StoreError>::Ok(Some(drawn))),
        drawn.user != 0,
    ensures
        moscow_day(later) != moscow_day(at as int) ==> today_line(after, chat, later) == Seq::<char>::empty(),
        moscow_day(later) == moscow_day(at as int) ==> today_line(after, chat, later) == "\n\nСегодня: "@ + escaped(
            drawn.name@,
        ),
{
    assert(moscow_day(at as int) as i64 == moscow_day(at as int));
    reveal_strlit("cuckold_user");
    reveal_strlit("cuckold_day");
    assert(CUCKOLD_USER@ != CUCKOLD_DAY@) by {
        assert(CUCKOLD_USER@.len() != CUCKOLD_DAY@.len());
    }
    if !drawn_today(before, chat, at as int) {
        assert(after.chat_state(chat).contains_key(CUCKOLD_USER@));
        assert(after.chat_state(chat).contains_key(CUCKOLD_DAY@));
        assert(drawn_user(after, chat) == drawn.user);
        assert(drawn_on(after, chat) == moscow_day(at as int));
        assert(after.member_map() == before.member_map());
    } else {
        assert(after.chat_state(chat) == before.chat_state(chat));
        assert(drawn_user(after, chat) == drawn_user(before, chat));
    }
}

/// A message naming the stream is answered for the stream, whatever else it
/// names; one naming Matthew and not the stream for Matthew; one naming
/// only Vinogradov for Vinogradov; and one naming none of them gets no
/// answer.
pub proof fn law_route_order(m: Incoming)
    ensures
        mentions_keyword(text_view(m), STREAM_KEYWORD@) ==> routed(m) == Some(Keyword::Stream),
        routed(m) == Some(Keyword::Matthew) <==> mentions_keyword(text_view(m), MATTHEW_KEYWORD@)
            && !mentions_keyword(text_view(m), STREAM_KEYWORD@),
        routed(m) == Some(Keyword::Vinograd) <==> mentions_keyword(text_view(m), VINOGRAD_KEYWORD@)
            && !mentions_keyword(text_view(m), STREAM_KEYWORD@) && !mentions_keyword(text_view(m), MATTHEW_KEYWORD@),
        routed(m) is None <==> !mentions_keyword(text_view(m), STREAM_KEYWORD@)
            && !mentions_keyword(text_view(m), MATTHEW_KEYWORD@) && !mentions_keyword(text_view(m), VINOGRAD_KEYWORD@),
{
}

/// A counted message moves its author toward the achievements of what it
/// is: one step toward "Потолок" exactly when written at night, toward
/// "Белогвардеец" exactly when it is about politics, toward "Ха-ха"
/// exactly when it is only laughter, toward "Робот" exactly when it answers
/// the bot; and "Шорты" measures the longest message written so far.
pub proof fn law_message_counts_toward_its_achievements(before: Store, after: Store, e: Event)
    requires
        counts(before, after, e, Result::<bool, StoreError>::Ok(true)),
    ensures
        current(Achievement::Potolok, after, e.chat, e.user) == current(Achievement::Potolok, before, e.chat, e.user)
            + if at_night(e) { 1int } else { 0int },
        current(Achievement::Belogvardeec, after, e.chat, e.user) == current(Achievement::Belogvardeec, before, e.chat, e.user)
            + if e.politics { 1int } else { 0int },
        current(Achievement::Haha, after, e.chat, e.user) == current(Achievement::Haha, before, e.chat, e.user)
            + if e.laugh_only { 1int } else { 0int },
        current(Achievement::Robot, after, e.chat, e.user) == current(Achievement::Robot, before, e.chat, e.user)
            + if e.reply_to_bot { 1int } else { 0int },
        current(Achievement::Shorty, after, e.chat, e.user) == if length_of(e) > current(Achievement::Shorty, before, e.chat, e.user) {
            length_of(e)
        } else {
            current(Achievement::Shorty, before, e.chat, e.user)
        },
{
    lemma_counting_keys();
    let t = tables_of(before);
    let ts = choose|ts: Seq<i64>| #[trigger] valid_targets(after.member_map(), e, ts) && match applied(
        t,
        e,
        ts,
        before.chat_state(e.chat),
    ) {
        Ok(x) => tables_of(after) == x,
        Err(_) => false,
    };
    let done = tables_of(after);
    let st = before.chat_state(e.chat);
    let (n1, n2) = lemma_applied_steps(t, e, ts, st, done, NIGHT_MESSAGES@);
    let (p1, p2) = lemma_applied_steps(t, e, ts, st, done, POLITICS@);
    let (h1, h2) = lemma_applied_steps(t, e, ts, st, done, LAUGH_ONLY@);
    let (r1, r2) = lemma_applied_steps(t, e, ts, st, done, REPLIES_TO_BOT@);
    let (l1, l2) = lemma_applied_steps(t, e, ts, st, done, LONGEST_MESSAGE@);
    lemma_counter_is_stat(before, e.chat, e.user, NIGHT_MESSAGES@);
    lemma_counter_is_stat(after, e.chat, e.user, NIGHT_MESSAGES@);
    lemma_counter_is_stat(before, e.chat, e.user, POLITICS@);
    lemma_counter_is_stat(after, e.chat, e.user, POLITICS@);
    lemma_counter_is_stat(before, e.chat, e.user, LAUGH_ONLY@);
    lemma_counter_is_stat(after, e.chat, e.user, LAUGH_ONLY@);
    lemma_counter_is_stat(before, e.chat, e.user, REPLIES_TO_BOT@);
    lemma_counter_is_stat(after, e.chat, e.user, REPLIES_TO_BOT@);
    lemma_counter_is_stat(before, e.chat, e.user, LONGEST_MESSAGE@);
    lemma_counter_is_stat(after, e.chat, e.user, LONGEST_MESSAGE@);
    assert(stat_in(done, e.chat, e.user, NIGHT_MESSAGES@) == stat_in(n2, e.chat, e.user, NIGHT_MESSAGES@));
    assert(stat_in(done, e.chat, e.user, POLITICS@) == stat_in(p2, e.chat, e.user, POLITICS@));
    assert(stat_in(done, e.chat, e.user, LAUGH_ONLY@) == stat_in(h2, e.chat, e.user, LAUGH_ONLY@));
    assert(stat_in(done, e.chat, e.user, REPLIES_TO_BOT@) == stat_in(r2, e.chat, e.user, REPLIES_TO_BOT@));
    assert(stat_in(done, e.chat, e.user, LONGEST_MESSAGE@) == stat_in(l2, e.chat, e.user, LONGEST_MESSAGE@));
    assert(stat_in(p1, e.chat, e.user, POLITICS@) == stat_in(t, e.chat, e.user, POLITICS@));
    assert(stat_in(h1, e.chat, e.user, LAUGH_ONLY@) == stat_in(t, e.chat, e.user, LAUGH_ONLY@));
    assert(stat_in(r1, e.chat, e.user, REPLIES_TO_BOT@) == stat_in(t, e.chat, e.user, REPLIES_TO_BOT@));
}

} // verus!
