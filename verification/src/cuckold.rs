use vstd::prelude::*;

use rand::rngs::StdRng;

use crate::chars::{chars_of, extend_str, string_of};
use crate::clock::{rfc3339, rfc3339_of, MOSCOW_OFFSET_SECONDS, SECONDS_IN_DAY};
use crate::digits::{number_text, signed_decimal};
use crate::html::{escape, escaped, mention, mention_link, telegram_id};
use crate::layout::{join, joined, rank_label, rank_label_of, string_views};
use crate::random::random_index;
use crate::rules::counter;
use crate::store::{is_active, is_ranking, known_name, opt_view, Part, Standing, Store, StoreError};

verus! {

/// Members seen within the last thirty days take part in the draw.
pub const ACTIVE_SECONDS: i64 = 2592000;

pub const CUCKOLD_DAY: &'static str = "cuckold_day";
pub const CUCKOLD_USER: &'static str = "cuckold_user";
pub const CUCKOLD_DAYS: &'static str = "cuckold_days";
pub const CUCKOLD_STREAK: &'static str = "cuckold_streak";
pub const CUCKOLD_BEST: &'static str = "cuckold_best";

/// The cuckold of the day.
pub struct Roll {
    pub user: i64,
    pub name: String,
    /// How many days they have been drawn.
    pub total: i64,
    /// How many days in a row they have been drawn, today included.
    pub streak: i64,
    /// Drawn just now, rather than repeated from earlier today.
    pub fresh: bool,
}

/// A moment a Telegram message can carry, in seconds since the epoch, with
/// room for a month either way inside the dates chrono can write.
pub open spec fn plausible(secs: int) -> bool {
    -8_000_000_000_000 <= secs <= 8_000_000_000_000
}

/// The Moscow day the moment falls into, counted from the epoch.
pub open spec fn moscow_day(secs: int) -> int {
    (secs + MOSCOW_OFFSET_SECONDS) / (SECONDS_IN_DAY as int)
}

/// Returns the Moscow day the moment falls into, counted from the epoch.
pub fn day_of(at: i64) -> (r: i64)
    ensures
        r as int == moscow_day(at as int),
{
    let shifted = at as i128 + MOSCOW_OFFSET_SECONDS as i128;
    let q = shifted / (SECONDS_IN_DAY as i128);
    let rem = shifted % (SECONDS_IN_DAY as i128);
    let day = if rem < 0 { q - 1 } else { q };
    proof {
        assert(day == (at as int + MOSCOW_OFFSET_SECONDS) / (SECONDS_IN_DAY as int));
    }
    day as i64
}

/// The day and the member the chat drew last.
pub open spec fn drawn_on(s: Store, chat: i64) -> i64 {
    counter(s.chat_state(chat), CUCKOLD_DAY@)
}

pub open spec fn drawn_user(s: Store, chat: i64) -> i64 {
    counter(s.chat_state(chat), CUCKOLD_USER@)
}

/// Today's cuckold was drawn already.
pub open spec fn drawn_today(s: Store, chat: i64, at: int) -> bool {
    drawn_on(s, chat) == moscow_day(at) && drawn_user(s, chat) != 0
}

/// The run of the member after being drawn today: one more than before when
/// they were drawn yesterday too, otherwise one.
pub open spec fn streak_after(s: Store, chat: i64, user: i64, at: int) -> int {
    if drawn_user(s, chat) == user && drawn_on(s, chat) == moscow_day(at) - 1 {
        s.stat_of(chat, user, CUCKOLD_STREAK@) + 1
    } else {
        1
    }
}

/// The counters after the member was drawn with the given tally and run.
pub open spec fn after_draw(m: Map<(i64, i64, Seq<char>), i64>, chat: i64, user: i64, total: i64, streak: i64) -> Map<(i64, i64, Seq<char>), i64> {
    let m1 = m.insert((chat, user, CUCKOLD_DAYS@), total);
    let m2 = m1.insert((chat, user, CUCKOLD_STREAK@), streak);
    let best = if m2.contains_key((chat, user, CUCKOLD_BEST@)) { m2[(chat, user, CUCKOLD_BEST@)] } else { 0 };
    if streak > best { m2.insert((chat, user, CUCKOLD_BEST@), streak) } else { m2 }
}

/// The repetition of today's draw, when the member is still known.
pub open spec fn repeats(s: Store, chat: i64, r: Option<Roll>) -> bool {
    let user = drawn_user(s, chat);
    match known_name(s.member_map(), chat, user) {
        None => r is None,
        Some(name) => r matches Some(roll) && {
            &&& roll.user == user
            &&& roll.name@ == name
            &&& roll.total == s.stat_of(chat, user, CUCKOLD_DAYS@)
            &&& roll.streak == s.stat_of(chat, user, CUCKOLD_STREAK@)
            &&& !roll.fresh
        },
    }
}

/// Repeats the member already drawn today, when they are still known.
fn repeat(store: &Store, chat: i64, user: i64) -> (r: Option<Roll>)
    requires
        user == drawn_user(*store, chat),
    ensures
        repeats(*store, chat, r),
{
    match store.member_name(chat, user) {
        None => None,
        Some(name) => Some(Roll {
            user,
            name,
            total: store.stat(chat, user, CUCKOLD_DAYS),
            streak: store.stat(chat, user, CUCKOLD_STREAK),
            fresh: false,
        }),
    }
}

/// Drawing at moment `at` took the store from `before` to `after` with result
/// `r` (see `roll`).
pub open spec fn rolls(before: Store, after: Store, chat: i64, at: i64, r: Result<Option<Roll>, StoreError>) -> bool {
    &&& (drawn_today(before, chat, at as int) ==> {
            &&& r matches Ok(drawn) && repeats(before, chat, drawn)
            &&& after.same_except(before, Set::<Part>::empty())
        })
    &&& (!drawn_today(before, chat, at as int) ==> {
            let since = rfc3339_of((at - ACTIVE_SECONDS) as i64);
            let members = before.member_map();
            &&& r == Result::<Option<Roll>, StoreError>::Ok(None) <==> forall|user: i64| !is_active(members, chat, user, since)
            &&& r matches Ok(Some(drawn)) ==> {
                &&& drawn.fresh
                &&& is_active(members, chat, drawn.user, since)
                &&& drawn.name@ == members[(chat, drawn.user)].1
                &&& drawn.total == before.stat_of(chat, drawn.user, CUCKOLD_DAYS@) + 1
                &&& drawn.streak == streak_after(before, chat, drawn.user, at as int)
                &&& after.stat_map() == after_draw(before.stat_map(), chat, drawn.user, drawn.total, drawn.streak)
                &&& after.state_map() == before.state_map().insert((chat, CUCKOLD_USER@), drawn.user).insert(
                    (chat, CUCKOLD_DAY@),
                    moscow_day(at as int) as i64,
                )
                &&& after.same_except(before, set![Part::Stats, Part::State])
            }
            &&& r is Err ==> {
                &&& exists|user: i64| #[trigger] is_active(members, chat, user, since) && (
                    before.stat_of(chat, user, CUCKOLD_DAYS@) == i64::MAX
                        || streak_after(before, chat, user, at as int) > i64::MAX)
                &&& after.same_except(before, Set::<Part>::empty())
            }
            &&& r matches Ok(None) ==> after.same_except(before, Set::<Part>::empty())
        })
}

/// Draws the cuckold of the day, or repeats the one already drawn today.
///
/// Returns nothing when no member of the chat has been seen in the last
/// thirty days, which is also the case for a chat the bot has never heard
/// from, and when the member drawn earlier today is no longer known. The
/// winner is drawn at random among the members seen. Returns an error,
/// changing nothing, when the winner's tally or run would pass the largest
/// 64-bit integer.
pub fn roll(store: &mut Store, chat: i64, at: i64, rng: &mut StdRng) -> (r: Result<Option<Roll>, StoreError>)
    requires
        plausible(at as int),
    ensures
        rolls(*old(store), *final(store), chat, at, r),
{
    let today = day_of(at);
    let state = store.state(chat);
    let drawn_on_day = state.get(CUCKOLD_DAY);
    let drawn = state.get(CUCKOLD_USER);
    if drawn_on_day == today && drawn != 0 {
        return Ok(repeat(store, chat, drawn));
    }
    let since = match rfc3339(at - ACTIVE_SECONDS) {
        Some(text) => text,
        None => String::new(),
    };
    let members = store.active_members(chat, since.as_str());
    if members.len() == 0 {
        proof {
            assert forall|user: i64| !is_active(store.member_map(), chat, user, since@) by {
                if is_active(store.member_map(), chat, user, since@) {
                    let i = choose|i: int| 0 <= i < members@.len() && #[trigger] members@[i].user == user;
                }
            }
        }
        return Ok(None);
    }
    let w = random_index(rng, members.len());
    let user = members[w].user;
    proof {
        assert(is_active(store.member_map(), chat, members@[w as int].user, since@));
    }
    let streak: i64 = if drawn == user && drawn_on_day == today - 1 {
        let run = store.stat(chat, user, CUCKOLD_STREAK);
        if run == 0x7fff_ffff_ffff_ffffi64 {
            return Err(StoreError::Overflow);
        }
        run + 1
    } else {
        1
    };
    let total = match store.bump(chat, user, CUCKOLD_DAYS, 1) {
        Ok(total) => total,
        Err(error) => {
            return Err(error);
        },
    };
    store.set_stat(chat, user, CUCKOLD_STREAK, streak);
    let best = store.stat(chat, user, CUCKOLD_BEST);
    if streak > best {
        store.set_stat(chat, user, CUCKOLD_BEST, streak);
    }
    store.set_state(chat, CUCKOLD_USER, user);
    store.set_state(chat, CUCKOLD_DAY, today);
    let name = members[w].name.clone();
    Ok(Some(Roll { user, name, total, streak, fresh: true }))
}

/// The lines the announcement ends on, one drawn at random.
pub open spec fn verdicts() -> Seq<Seq<char>> {
    seq![
        "Хорошо куколд сука."@,
        "Не понял, куколд моя бабушка?"@,
        "Манифест куколдистической партии принят."@,
    ]
}

/// The announcement of the cuckold of the day, ending on the given line.
pub open spec fn verdict_text(drawn: Roll, line: Seq<char>) -> Seq<char> {
    "🎉 Куколд дня — "@ + mention_link(telegram_id(drawn.user), drawn.name@) + ". "@ + line + "\nВсего раз: "@
        + signed_decimal(drawn.total as int) + ". Серия: "@ + signed_decimal(drawn.streak as int) + "."@
}

/// Returns the announcement of the cuckold of the day, ending on the line of
/// the given place.
pub fn verdict(drawn: &Roll, line: usize) -> (r: String)
    requires
        line < 3,
    ensures
        r@ == verdict_text(*drawn, verdicts()[line as int]),
{
    let text: &str = if line == 0 {
        "Хорошо куколд сука."
    } else if line == 1 {
        "Не понял, куколд моя бабушка?"
    } else {
        "Манифест куколдистической партии принят."
    };
    let mut v = chars_of("🎉 Куколд дня — ");
    let who = mention(drawn.user, drawn.name.as_str());
    extend_str(&mut v, who.as_str());
    extend_str(&mut v, ". ");
    extend_str(&mut v, text);
    extend_str(&mut v, "\nВсего раз: ");
    let total = number_text(drawn.total);
    extend_str(&mut v, total.as_str());
    extend_str(&mut v, ". Серия: ");
    let streak = number_text(drawn.streak);
    extend_str(&mut v, streak.as_str());
    extend_str(&mut v, ".");
    string_of(&v)
}

/// Returns the announcement of the cuckold of the day, ending on a line
/// drawn at random.
pub fn verdict_for(drawn: &Roll, rng: &mut StdRng) -> (r: String)
    ensures
        exists|i: int| 0 <= i < 3 && r@ == #[trigger] verdict_text(*drawn, verdicts()[i]),
{
    let line = random_index(rng, 3);
    let r = verdict(drawn, line);
    assert(r@ == verdict_text(*drawn, verdicts()[line as int]));
    r
}

/// How a member of a ranking is called: their first name, or their id when
/// the bot does not know them.
pub open spec fn shown_name(st: Standing) -> Seq<char> {
    match opt_view(st.name) {
        Some(name) => name,
        None => signed_decimal(st.user as int),
    }
}

/// Returns how a member of a ranking is called.
pub fn shown_name_of(st: &Standing) -> (r: String)
    ensures
        r@ == shown_name(*st),
{
    match &st.name {
        Some(name) => name.clone(),
        None => number_text(st.user),
    }
}

/// One line of the ranking of cuckolds.
pub open spec fn cuckold_line(s: Store, chat: i64, place: nat, st: Standing) -> Seq<char> {
    let best = s.stat_of(chat, st.user, CUCKOLD_BEST@);
    rank_label(place) + " <b>"@ + escaped(shown_name(st)) + "</b> · "@ + signed_decimal(st.count as int) + " раз"@ + (
    if best > 1 {
        " · лучшая серия "@ + signed_decimal(best as int)
    } else {
        Seq::empty()
    })
}

/// The line naming today's cuckold, when today was drawn and the member is
/// known; nothing otherwise.
pub open spec fn today_line(s: Store, chat: i64, date: int) -> Seq<char> {
    if drawn_user(s, chat) == 0 || drawn_on(s, chat) != moscow_day(date) {
        Seq::empty()
    } else {
        match known_name(s.member_map(), chat, drawn_user(s, chat)) {
            Some(name) => "\n\nСегодня: "@ + escaped(name),
            None => Seq::empty(),
        }
    }
}

/// The ranking of cuckolds as the bot shows it.
pub open spec fn cuckold_board(s: Store, chat: i64, ranked: Seq<Standing>, date: int) -> Seq<char> {
    if ranked.len() == 0 {
        "🏆 <b>Куколды чата</b>\n\nНикто ещё не был куколдом. Терпим."@
    } else {
        "🏆 <b>Куколды чата</b>\n\n"@ + joined(
            Seq::new(ranked.len(), |i: int| cuckold_line(s, chat, i as nat, ranked[i])),
            "\n"@,
        ) + today_line(s, chat, date)
    }
}

fn cuckold_line_of(store: &Store, chat: i64, place: usize, st: &Standing) -> (r: String)
    requires
        place < usize::MAX,
    ensures
        r@ == cuckold_line(*store, chat, place as nat, *st),
{
    let mut v = chars_of(rank_label_of(place).as_str());
    extend_str(&mut v, " <b>");
    let name = escape(shown_name_of(st).as_str());
    extend_str(&mut v, name.as_str());
    extend_str(&mut v, "</b> · ");
    extend_str(&mut v, number_text(st.count).as_str());
    extend_str(&mut v, " раз");
    let best = store.stat(chat, st.user, CUCKOLD_BEST);
    if best > 1 {
        extend_str(&mut v, " · лучшая серия ");
        extend_str(&mut v, number_text(best).as_str());
    }
    proof {
        if best <= 1 {
            assert(v@ =~= cuckold_line(*store, chat, place as nat, *st));
        }
    }
    string_of(&v)
}

fn today_of(store: &Store, chat: i64, date: i64) -> (r: String)
    ensures
        r@ == today_line(*store, chat, date as int),
{
    let state = store.state(chat);
    let drawn_on_day = state.get(CUCKOLD_DAY);
    let drawn = state.get(CUCKOLD_USER);
    if drawn == 0 || drawn_on_day != day_of(date) {
        return String::new();
    }
    match store.member_name(chat, drawn) {
        Some(name) => {
            let mut v = chars_of("\n\nСегодня: ");
            extend_str(&mut v, escape(name.as_str()).as_str());
            string_of(&v)
        },
        None => String::new(),
    }
}

/// Renders how often each member of the chat has been the cuckold, naming
/// today's cuckold once today has been drawn.
pub fn stats(store: &Store, chat: i64, date: i64) -> (r: String)
    ensures
        exists|ranked: Seq<Standing>| #[trigger] is_ranking(*store, chat, CUCKOLD_DAYS@, ranked)
            && r@ == cuckold_board(*store, chat, ranked, date as int),
{
    let ranked = store.ranking(chat, CUCKOLD_DAYS);
    if ranked.len() == 0 {
        let r = "🏆 <b>Куколды чата</b>\n\nНикто ещё не был куколдом. Терпим.".to_string();
        assert(r@ == cuckold_board(*store, chat, ranked@, date as int));
        return r;
    }
    let mut lines: Vec<String> = Vec::new();
    let mut i: usize = 0;
    while i < ranked.len()
        invariant
            i <= ranked@.len(),
            string_views(lines@) == Seq::new(i as nat, |k: int| cuckold_line(*store, chat, k as nat, ranked@[k])),
        decreases ranked@.len() - i,
    {
        let line = cuckold_line_of(store, chat, i, &ranked[i]);
        let ghost before = lines@;
        lines.push(line);
        proof {
            assert(string_views(lines@) =~= string_views(before).push(lines@[i as int]@));
            assert(string_views(lines@) =~= Seq::new((i + 1) as nat, |k: int| cuckold_line(*store, chat, k as nat, ranked@[k])));
        }
        i = i + 1;
    }
    let body = join(&lines, "\n");
    let mut v = chars_of("🏆 <b>Куколды чата</b>\n\n");
    extend_str(&mut v, body.as_str());
    extend_str(&mut v, today_of(store, chat, date).as_str());
    let r = string_of(&v);
    assert(r@ == cuckold_board(*store, chat, ranked@, date as int));
    r
}

pub const NOBODY_TEXT: &'static str = "Играть не с кем. Терпим.";
pub const FAILED_TEXT: &'static str = "Бля, я обосрался. Попробуйте позже.";
/// The first beat of the drum roll.
pub const SEARCHING_TEXT: &'static str = "Ищу куколда дня…";
/// The second beat of the drum roll.
pub const CHECKING_TEXT: &'static str = "Проверяю списки…";

/// How the bot answers `/cuckold`.
pub enum Announcement {
    /// A plain text, sent as it is.
    Plain(String),
    /// The verdict, sent at once in HTML.
    Verdict(String),
    /// A drum roll: one message edited twice, the second time into the
    /// verdict in HTML.
    Drumroll(String),
}

/// Decides how to answer `/cuckold` given what the draw gave: nobody to draw
/// from, a failed draw, a repeat of today's cuckold or a fresh one, the
/// verdict ending on a line drawn at random.
pub fn announcement(outcome: &Result<Option<Roll>, StoreError>, rng: &mut StdRng) -> (r: Announcement)
    ensures
        outcome matches Ok(None) ==> (r matches Announcement::Plain(text) && text@ == NOBODY_TEXT@),
        outcome is Err ==> (r matches Announcement::Plain(text) && text@ == FAILED_TEXT@),
        outcome matches Ok(Some(drawn)) ==> {
            &&& drawn.fresh ==> r is Drumroll
            &&& !drawn.fresh ==> r is Verdict
            &&& r matches Announcement::Drumroll(text) ==> exists|i: int| 0 <= i < 3 && text@ == #[trigger] verdict_text(*drawn, verdicts()[i])
            &&& r matches Announcement::Verdict(text) ==> exists|i: int| 0 <= i < 3 && text@ == #[trigger] verdict_text(*drawn, verdicts()[i])
        },
{
    match outcome {
        Ok(None) => Announcement::Plain(NOBODY_TEXT.to_string()),
        Err(_) => Announcement::Plain(FAILED_TEXT.to_string()),
        Ok(Some(drawn)) => {
            let text = verdict_for(drawn, rng);
            if drawn.fresh {
                Announcement::Drumroll(text)
            } else {
                Announcement::Verdict(text)
            }
        },
    }
}

} // verus!
