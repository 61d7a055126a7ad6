use afanasieff_rs::cuckold::{announcement, day_of, roll, stats, Announcement, CUCKOLD_BEST};
use afanasieff_rs::store::Store;
use chrono::{TimeZone, Utc};
use rand::rngs::StdRng;
use rand::SeedableRng;

const CHAT: i64 = 42;

fn store_with_one_member() -> Store {
    let mut store = Store::in_memory();
    store.upsert_member(CHAT, 7, Some("m"), "Матвей", "2026-08-07T10:00:00+00:00");
    store
}

fn at(day: u32, hour: u32) -> i64 {
    Utc.with_ymd_and_hms(2026, 8, day, hour, 0, 0).unwrap().timestamp()
}

fn seeded() -> StdRng {
    StdRng::seed_from_u64(1)
}

#[test]
fn counts_an_evening_and_the_night_after_it_as_one_moscow_day() {
    assert_eq!(day_of(at(7, 22)), day_of(at(7, 21)));
}

#[test]
fn starts_a_new_moscow_day_at_nine_in_the_evening_utc() {
    assert_eq!(day_of(at(7, 21)), day_of(at(7, 20)) + 1);
}

#[test]
fn counts_days_from_the_epoch() {
    assert_eq!(day_of(0), 0);
    assert_eq!(day_of(-10_800), 0);
    assert_eq!(day_of(-10_801), -1);
    assert_eq!(day_of(86_400 - 10_800), 1);
}

#[test]
fn draws_once_a_day_and_repeats_itself_afterwards() {
    let mut store = store_with_one_member();
    let first = roll(&mut store, CHAT, at(7, 10), &mut seeded()).unwrap().unwrap();
    let again = roll(&mut store, CHAT, at(7, 18), &mut seeded()).unwrap().unwrap();
    assert!(first.fresh);
    assert!(!again.fresh);
    assert_eq!(again.user, first.user);
    assert_eq!(again.total, 1);
}

#[test]
fn records_the_winners_identity_before_closing_the_days_gate() {
    let mut store = store_with_one_member();
    let drawn = roll(&mut store, CHAT, at(7, 10), &mut seeded()).unwrap().unwrap();
    assert_eq!(store.state(CHAT).get("cuckold_user"), drawn.user);
    let again = roll(&mut store, CHAT, at(7, 18), &mut seeded()).unwrap().unwrap();
    assert_eq!(again.user, drawn.user);
}

#[test]
fn draws_again_on_the_next_day() {
    let mut store = store_with_one_member();
    roll(&mut store, CHAT, at(7, 10), &mut seeded()).unwrap();
    let next = roll(&mut store, CHAT, at(8, 10), &mut seeded()).unwrap().unwrap();
    assert!(next.fresh);
    assert_eq!(next.total, 2);
}

#[test]
fn grows_the_run_over_consecutive_days() {
    let mut store = store_with_one_member();
    roll(&mut store, CHAT, at(7, 10), &mut seeded()).unwrap();
    roll(&mut store, CHAT, at(8, 10), &mut seeded()).unwrap();
    let third = roll(&mut store, CHAT, at(9, 10), &mut seeded()).unwrap().unwrap();
    assert_eq!(third.streak, 3);
}

#[test]
fn breaks_the_run_when_a_day_is_skipped() {
    let mut store = store_with_one_member();
    roll(&mut store, CHAT, at(7, 10), &mut seeded()).unwrap();
    roll(&mut store, CHAT, at(8, 10), &mut seeded()).unwrap();
    let after_gap = roll(&mut store, CHAT, at(10, 10), &mut seeded()).unwrap().unwrap();
    assert_eq!(after_gap.streak, 1);
    assert_eq!(store.stat(CHAT, after_gap.user, CUCKOLD_BEST), 2);
}

#[test]
fn draws_nobody_when_every_member_went_quiet() {
    let mut store = Store::in_memory();
    store.upsert_member(CHAT, 7, Some("m"), "Матвей", "2026-01-01T10:00:00+00:00");
    assert!(roll(&mut store, CHAT, at(7, 10), &mut seeded()).unwrap().is_none());
}

#[test]
fn draws_nobody_from_an_empty_chat() {
    let mut store = Store::in_memory();
    assert!(roll(&mut store, CHAT, at(7, 10), &mut seeded()).unwrap().is_none());
}

#[test]
fn fails_to_roll_when_the_tally_is_full() {
    let mut store = store_with_one_member();
    store.set_stat(CHAT, 7, "cuckold_days", i64::MAX);
    assert!(roll(&mut store, CHAT, at(7, 10), &mut seeded()).is_err());
    assert_eq!(store.state(CHAT).get("cuckold_user"), 0);
}

fn text_of(answer: &Announcement) -> String {
    match answer {
        Announcement::Plain(text) | Announcement::Verdict(text) | Announcement::Drumroll(text) => text.clone(),
    }
}

#[test]
fn beats_a_drum_roll_before_naming_the_cuckold() {
    let mut store = store_with_one_member();
    let outcome = roll(&mut store, CHAT, at(7, 10), &mut seeded());
    let answer = announcement(&outcome, &mut seeded());
    assert!(matches!(answer, Announcement::Drumroll(_)));
    assert!(text_of(&answer).contains("Матвей"));
    assert!(text_of(&answer).contains("tg://user?id=7"));
}

#[test]
fn names_the_same_cuckold_without_a_drum_roll_for_the_rest_of_the_day() {
    let mut store = store_with_one_member();
    roll(&mut store, CHAT, at(7, 10), &mut seeded()).unwrap();
    let outcome = roll(&mut store, CHAT, at(7, 11), &mut seeded());
    let answer = announcement(&outcome, &mut seeded());
    assert!(matches!(answer, Announcement::Verdict(_)));
    assert!(text_of(&answer).contains("Матвей"));
}

#[test]
fn says_there_is_nobody_to_draw_from_in_a_silent_chat() {
    let mut store = Store::in_memory();
    let outcome = roll(&mut store, CHAT, at(7, 10), &mut seeded());
    let answer = announcement(&outcome, &mut seeded());
    assert!(matches!(answer, Announcement::Plain(_)));
    assert!(text_of(&answer).contains("Играть не с кем"));
}

#[test]
fn ranks_the_chat_by_how_often_each_member_was_the_cuckold() {
    let mut store = Store::in_memory();
    store.upsert_member(CHAT, 1, Some("one"), "Первый", "2026-08-07T10:00:00+00:00");
    store.upsert_member(CHAT, 2, Some("two"), "Второй", "2026-08-07T10:00:00+00:00");
    store.set_stat(CHAT, 1, "cuckold_days", 3);
    store.set_stat(CHAT, 2, "cuckold_days", 9);
    store.set_stat(CHAT, 2, "cuckold_best", 4);
    let answer = stats(&store, CHAT, at(7, 10));
    let leader = answer.find("Второй").expect("the leader is listed");
    let runner_up = answer.find("Первый").expect("the runner up is listed");
    assert!(answer.contains("9 раз"));
    assert!(answer.contains("лучшая серия 4"));
    assert!(leader < runner_up);
    assert_eq!(
        answer,
        "🏆 <b>Куколды чата</b>\n\n🥇 <b>Второй</b> · 9 раз · лучшая серия 4\n🥈 <b>Первый</b> · 3 раз"
    );
}

#[test]
fn names_todays_cuckold_in_the_stats_only_after_a_draw() {
    let mut store = store_with_one_member();
    let before = stats(&store, CHAT, at(7, 10));
    roll(&mut store, CHAT, at(7, 11), &mut seeded()).unwrap();
    let after = stats(&store, CHAT, at(7, 12));
    assert!(!before.contains("Сегодня"));
    assert!(after.contains("Сегодня: Матвей"));
}

#[test]
fn says_so_when_nobody_has_ever_been_the_cuckold() {
    let store = store_with_one_member();
    assert!(stats(&store, CHAT, at(7, 10)).contains("Никто ещё не был куколдом"));
}

#[test]
fn numbers_the_places_after_the_medals() {
    let mut store = Store::in_memory();
    for user in 1..=4 {
        store.set_stat(CHAT, user, "cuckold_days", 10 - user);
    }
    let answer = stats(&store, CHAT, at(7, 10));
    assert!(answer.contains("🥉 <b>3</b> · 7 раз"));
    assert!(answer.contains("4. <b>4</b> · 6 раз"));
}
