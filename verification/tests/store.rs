use afanasieff_rs::sources::{MATTHEW_SOURCE, STREAM_SOURCE, VINOGRAD_SOURCE};
use afanasieff_rs::store::{Store, StoreError};
use rand::rngs::StdRng;
use rand::SeedableRng;

fn store() -> Store {
    Store::in_memory()
}

fn rng(seed: u64) -> StdRng {
    StdRng::seed_from_u64(seed)
}

fn quotes_of(store: &Store, source: &str) -> usize {
    store.quotes(source).len()
}

fn seeds_every_source(store: &Store) {
    for source in [STREAM_SOURCE, MATTHEW_SOURCE, VINOGRAD_SOURCE] {
        assert!(quotes_of(store, source) > 0, "source '{source}' has no seeded quote");
    }
}

fn returns_quote_of_asked_source(store: &Store) {
    let quote = store.random_quote(VINOGRAD_SOURCE, &mut rng(1)).expect("a vinograd quote");
    assert!(store.quotes(VINOGRAD_SOURCE).contains(&quote));
}

#[test]
fn store_migrates_every_source_of_quotes() {
    seeds_every_source(&store());
}

#[test]
fn mod_migrates_every_source_of_quotes() {
    seeds_every_source(&store());
}

#[test]
fn store_returns_migrated_quote_of_asked_source() {
    returns_quote_of_asked_source(&store());
}

#[test]
fn mod_returns_migrated_quote_of_asked_source() {
    returns_quote_of_asked_source(&store());
}

#[test]
fn store_returns_no_quote_of_unknown_source() {
    assert_eq!(store().random_quote("stepan", &mut rng(1)), None);
}

#[test]
fn mod_returns_no_quote_of_unknown_source() {
    assert_eq!(store().random_quote("stepan", &mut rng(1)), None);
}

fn remembers_chats_once() {
    let mut store = store();
    store.remember_chat(42);
    store.remember_chat(42);
    store.remember_chat(-100);
    let mut remembered = store.chats();
    remembered.sort_unstable();
    assert_eq!(remembered, vec![-100, 42]);
}

#[test]
fn store_remembers_every_chat_once() {
    remembers_chats_once();
}

#[test]
fn mod_remembers_every_chat_once() {
    remembers_chats_once();
}

fn stores_once_per_message_id() {
    let mut store = store();
    store.store_matthew_message(42, 7, "2026-07-30T17:00:00Z", "терпим").unwrap();
    store.store_matthew_message(42, 7, "2026-07-30T17:00:00Z", "терпим").unwrap();
    store.store_matthew_message(42, 8, "2026-07-30T17:01:00Z", "Извините").unwrap();
    assert_eq!(store.waiting_len(), 2);
}

#[test]
fn store_stores_matthew_message_once_per_message_id() {
    stores_once_per_message_id();
}

#[test]
fn mod_stores_matthew_message_once_per_message_id() {
    stores_once_per_message_id();
}

fn tells_new_from_stored() {
    let mut store = store();
    let first = store.store_matthew_message(42, 7, "2026-07-30T17:00:00Z", "терпим").unwrap();
    let again = store.store_matthew_message(42, 7, "2026-07-30T17:00:00Z", "терпим").unwrap();
    assert!(first);
    assert!(!again);
}

#[test]
fn store_tells_new_matthew_message_from_already_stored_one() {
    tells_new_from_stored();
}

#[test]
fn mod_tells_new_matthew_message_from_already_stored_one() {
    tells_new_from_stored();
}

#[test]
fn promotes_oldest_matthew_message_into_quotes() {
    let mut store = store();
    store.store_matthew_message(42, 7, "2026-07-30T17:00:00Z", "первое").unwrap();
    store.store_matthew_message(42, 8, "2026-07-30T17:01:00Z", "второе").unwrap();
    let promoted = store.promote_oldest_matthew_message(STREAM_SOURCE).unwrap().unwrap();
    assert_eq!(promoted, "первое");
    assert_eq!(store.waiting_len(), 1);
    let quoted = store.quotes(STREAM_SOURCE).iter().filter(|text| text.as_str() == "первое").count();
    assert_eq!(quoted, 1);
}

#[test]
fn promotes_nothing_when_no_matthew_message_waits() {
    let mut store = store();
    assert_eq!(store.promote_oldest_matthew_message(STREAM_SOURCE).unwrap(), None);
}

fn only_two_matthew_quotes(rare: i64, often: i64) -> Store {
    let mut store = Store::empty();
    assert!(store.restore_quote(1, MATTHEW_SOURCE, "редкая", rare));
    assert!(store.restore_quote(2, MATTHEW_SOURCE, "частая", often));
    store
}

#[test]
fn favours_a_quote_with_a_higher_score() {
    let store = only_two_matthew_quotes(0, 9);
    let mut rng = rng(7);
    let mut often = 0;
    for _ in 0..200 {
        if store.random_quote(MATTHEW_SOURCE, &mut rng).as_deref() == Some("частая") {
            often += 1;
        }
    }
    assert!(often > 100, "the higher scored quote came up {often} times of 200");
}

#[test]
fn keeps_a_zero_score_quote_reachable_against_an_absurd_rival_score() {
    let store = only_two_matthew_quotes(0, 1_000_000);
    let mut rng = rng(11);
    let mut drawn = 0;
    for _ in 0..500 {
        if store.random_quote(MATTHEW_SOURCE, &mut rng).as_deref() == Some("редкая") {
            drawn += 1;
        }
    }
    assert!(drawn > 0, "the zero score quote never came up");
}

#[test]
fn raises_the_score_of_a_quote() {
    let mut store = only_two_matthew_quotes(0, 0);
    store.bump_quote_score(1).unwrap();
    store.bump_quote_score(1).unwrap();
    assert_eq!(store.quote_score(1), Some(2));
    assert_eq!(store.quote_score(2), Some(0));
}

#[test]
fn refuses_to_raise_a_score_past_the_largest_integer() {
    let mut store = only_two_matthew_quotes(0, i64::MAX);
    assert_eq!(store.bump_quote_score(2), Err(StoreError::Overflow));
    assert_eq!(store.quote_score(2), Some(i64::MAX));
}

#[test]
fn reads_every_quote_of_every_source() {
    let store = store();
    assert!(store.all_quotes().len() > store.quotes(MATTHEW_SOURCE).len());
}

#[test]
fn promotes_one_named_message_into_the_matthew_source() {
    let mut store = store();
    store.store_matthew_message(42, 7, "2026-08-07T10:00:00Z", "вне очереди").unwrap();
    store.store_matthew_message(42, 8, "2026-08-07T10:01:00Z", "в очереди").unwrap();
    let promoted = store.promote_matthew_message(42, 7).unwrap();
    assert!(promoted.is_some());
    assert!(store.quotes(MATTHEW_SOURCE).contains(&"вне очереди".to_string()));
    assert_eq!(store.waiting_len(), 1);
}

#[test]
fn promotes_nothing_for_a_message_the_cron_already_took() {
    let mut store = store();
    assert_eq!(store.promote_matthew_message(42, 7).unwrap(), None);
}

#[test]
fn accumulates_a_counter_across_bumps() {
    let mut store = store();
    store.bump(42, 7, "messages", 1).unwrap();
    let value = store.bump(42, 7, "messages", 1).unwrap();
    assert_eq!(value, 2);
}

#[test]
fn refuses_a_bump_past_the_largest_integer() {
    let mut store = store();
    store.set_stat(42, 7, "messages", i64::MAX);
    assert_eq!(store.bump(42, 7, "messages", 1), Err(StoreError::Overflow));
    assert_eq!(store.stat(42, 7, "messages"), i64::MAX);
}

#[test]
fn keeps_counters_of_different_members_apart() {
    let mut store = store();
    store.bump(42, 7, "messages", 5).unwrap();
    store.bump(42, 8, "messages", 1).unwrap();
    assert_eq!(store.stat(42, 7, "messages"), 5);
    assert_eq!(store.stat(42, 8, "messages"), 1);
}

#[test]
fn reports_zero_for_a_counter_that_was_never_bumped() {
    assert_eq!(store().stat(42, 7, "night_messages"), 0);
}

#[test]
fn overwrites_a_counter_on_set() {
    let mut store = store();
    store.bump(42, 7, "longest_message", 100).unwrap();
    store.set_stat(42, 7, "longest_message", 40);
    assert_eq!(store.stat(42, 7, "longest_message"), 40);
}

#[test]
fn reads_every_counter_of_a_member_at_once() {
    let mut store = store();
    store.bump(42, 7, "messages", 3).unwrap();
    store.bump(42, 7, "mat", 1).unwrap();
    store.bump(42, 8, "messages", 9).unwrap();
    let stats = store.stats(42, 7);
    let mut keys = stats.keys();
    keys.sort();
    assert_eq!(keys, vec!["mat".to_string(), "messages".to_string()]);
    assert_eq!(stats.find("messages"), Some(3));
}

#[test]
fn resolves_a_member_by_username_ignoring_case() {
    let mut store = store();
    store.upsert_member(42, 7, Some("MatthewAFN"), "Матвей", "2026-08-06T10:00:00Z");
    assert_eq!(store.member_by_username(42, "matthewafn"), Some(7));
}

#[test]
fn updates_a_member_instead_of_duplicating_them() {
    let mut store = store();
    store.upsert_member(42, 7, Some("old"), "Матвей", "2026-08-06T10:00:00Z");
    store.upsert_member(42, 7, Some("new"), "Матвей А", "2026-08-06T11:00:00Z");
    assert_eq!(store.member_by_username(42, "old"), None);
    assert_eq!(store.member_by_username(42, "new"), Some(7));
}

#[test]
fn keeps_chat_state_per_chat() {
    let mut store = store();
    store.set_state(42, "last_message_id", 100);
    store.set_state(-100, "last_message_id", 7);
    store.set_state(42, "last_message_id", 101);
    assert_eq!(store.state(42).find("last_message_id"), Some(101));
    assert_eq!(store.state(-100).find("last_message_id"), Some(7));
}

#[test]
fn unlocks_an_achievement_only_once() {
    let mut store = store();
    let first = store.unlock(42, 7, "terpim", "2026-08-06T10:00:00Z");
    let again = store.unlock(42, 7, "terpim", "2026-08-06T11:00:00Z");
    assert!(first);
    assert!(!again);
    assert_eq!(store.unlocked_at(42, 7, "terpim").as_deref(), Some("2026-08-06T10:00:00Z"));
}

#[test]
fn lists_the_codes_a_member_owns() {
    let mut store = store();
    store.unlock(42, 7, "terpim", "2026-08-06T10:00:00Z");
    store.unlock(42, 7, "haha", "2026-08-06T10:00:00Z");
    store.unlock(42, 8, "robot", "2026-08-06T10:00:00Z");
    let mut codes = store.owned(42, 7);
    codes.sort();
    assert_eq!(codes, vec!["haha".to_string(), "terpim".to_string()]);
}

#[test]
fn remembers_who_wrote_a_message() {
    let mut store = store();
    store.remember_message(42, 7, 100, None);
    let owner = store.message_owner(42, 7).unwrap();
    assert_eq!(owner.user, 100);
    assert_eq!(owner.quote, None);
}

#[test]
fn keeps_the_quote_when_a_later_write_does_not_carry_one() {
    let mut store = store();
    store.remember_message(42, 7, 100, Some(5));
    store.remember_message(42, 7, 100, None);
    assert_eq!(store.message_owner(42, 7).unwrap().quote, Some(5));
}

#[test]
fn attaches_a_quote_to_an_already_remembered_message() {
    let mut store = store();
    store.remember_message(42, 7, 100, None);
    store.remember_message(42, 7, 100, Some(9));
    assert_eq!(store.message_owner(42, 7).unwrap().quote, Some(9));
}

#[test]
fn forgets_a_message_that_fell_out_of_the_window() {
    let mut store = store();
    for message in 1..=520 {
        store.remember_message(42, message, 100, None);
    }
    assert!(store.message_owner(42, 1).is_none());
    assert!(store.message_owner(42, 20).is_none());
    assert!(store.message_owner(42, 21).is_some());
    assert!(store.message_owner(42, 520).is_some());
}

#[test]
fn keeps_the_windows_of_two_chats_apart() {
    let mut store = store();
    store.remember_message(42, 7, 100, None);
    for message in 1..=520 {
        store.remember_message(-100, message, 200, None);
    }
    assert!(store.message_owner(42, 7).is_some());
}

#[test]
fn reports_no_owner_for_an_unknown_message() {
    assert!(store().message_owner(42, 7).is_none());
}

#[test]
fn lists_only_the_members_seen_since_the_given_moment() {
    let mut store = store();
    store.upsert_member(42, 1, Some("fresh"), "Свежий", "2026-08-07T10:00:00+00:00");
    store.upsert_member(42, 2, Some("stale"), "Древний", "2026-01-01T10:00:00+00:00");
    let active = store.active_members(42, "2026-07-08T00:00:00+00:00");
    let names = active.iter().map(|member| member.name.clone()).collect::<Vec<String>>();
    assert_eq!(names, vec!["Свежий".to_string()]);
}

#[test]
fn keeps_the_active_members_of_two_chats_apart() {
    let mut store = store();
    store.upsert_member(42, 1, Some("here"), "Наш", "2026-08-07T10:00:00+00:00");
    store.upsert_member(-100, 2, Some("there"), "Чужой", "2026-08-07T10:00:00+00:00");
    assert_eq!(store.active_members(42, "2026-07-08T00:00:00+00:00").len(), 1);
}

#[test]
fn ranks_members_by_a_counter_highest_first() {
    let mut store = store();
    store.upsert_member(42, 1, Some("one"), "Первый", "2026-08-07T10:00:00+00:00");
    store.upsert_member(42, 2, Some("two"), "Второй", "2026-08-07T10:00:00+00:00");
    store.set_stat(42, 1, "cuckold_days", 3);
    store.set_stat(42, 2, "cuckold_days", 9);
    let names = store
        .ranking(42, "cuckold_days")
        .iter()
        .map(|standing| standing.name.clone().unwrap_or_default())
        .collect::<Vec<String>>();
    assert_eq!(names, vec!["Второй".to_string(), "Первый".to_string()]);
}

#[test]
fn breaks_a_tie_in_the_ranking_by_ascending_user_id_on_every_call() {
    let mut store = store();
    store.upsert_member(42, 2, Some("two"), "Второй", "2026-08-07T10:00:00+00:00");
    store.upsert_member(42, 1, Some("one"), "Первый", "2026-08-07T10:00:00+00:00");
    store.set_stat(42, 2, "cuckold_days", 3);
    store.set_stat(42, 1, "cuckold_days", 3);
    let first_call = store.ranking(42, "cuckold_days").iter().map(|s| s.user).collect::<Vec<i64>>();
    let second_call = store.ranking(42, "cuckold_days").iter().map(|s| s.user).collect::<Vec<i64>>();
    assert_eq!(first_call, vec![1, 2]);
    assert_eq!(second_call, vec![1, 2]);
}

#[test]
fn leaves_a_zero_counter_out_of_the_ranking() {
    let mut store = store();
    store.upsert_member(42, 1, Some("one"), "Первый", "2026-08-07T10:00:00+00:00");
    store.set_stat(42, 1, "cuckold_days", 0);
    assert_eq!(store.ranking(42, "cuckold_days").len(), 0);
}

#[test]
fn returns_the_name_of_a_known_member() {
    let mut store = store();
    store.upsert_member(42, 7, Some("m"), "Матвей", "2026-08-07T10:00:00+00:00");
    assert_eq!(store.member_name(42, 7), Some("Матвей".to_string()));
}

#[test]
fn ranks_the_leaderboard_by_owned_achievements_then_by_who_got_there_first() {
    let mut store = store();
    store.upsert_member(42, 1, Some("one"), "Первый", "2026-08-07T10:00:00+00:00");
    store.upsert_member(42, 2, Some("two"), "Второй", "2026-08-07T10:00:00+00:00");
    store.unlock(42, 1, "terpim", "2026-08-07T12:00:00+00:00");
    store.unlock(42, 2, "haha", "2026-08-07T11:00:00+00:00");
    store.unlock(42, 3, "robot", "2026-08-07T09:00:00+00:00");
    store.unlock(42, 3, "vpn", "2026-08-07T09:30:00+00:00");
    let board = store.leaderboard(42);
    let users = board.iter().map(|s| (s.user, s.count)).collect::<Vec<(i64, i64)>>();
    assert_eq!(users, vec![(3, 2), (2, 1), (1, 1)]);
    assert_eq!(board[0].name, None);
    assert_eq!(board[1].name.as_deref(), Some("Второй"));
}

#[test]
fn keeps_a_message_written_again_in_a_full_chat() {
    let mut store = Store::in_memory();
    for message in 1..=520 {
        store.remember_message(42, message, 100, None);
    }
    assert!(store.message_owner(42, 20).is_none());
    store.remember_message(42, 30, 100, Some(5));
    let owner = store.message_owner(42, 30).expect("message 30 is still remembered");
    assert_eq!(owner.quote, Some(5));
    assert!(store.message_owner(42, 520).is_some());
}
