use afanasieff_rs::reactions::observe;
use afanasieff_rs::sources::{MATTHEW_SOURCE, MATTHEW_USERNAME};
use afanasieff_rs::store::Store;
use afanasieff_rs::update::ReactionUpdate;

const CHAT: i64 = -100;

fn reaction(message: i32, actor: u64, set: bool) -> ReactionUpdate {
    ReactionUpdate { chat: CHAT, message_id: message, actor: Some(actor), old_empty: true, new_empty: !set }
}

fn swap(message: i32, actor: u64) -> ReactionUpdate {
    ReactionUpdate { chat: CHAT, message_id: message, actor: Some(actor), old_empty: false, new_empty: false }
}

fn store_with_member(user: i64, username: Option<&str>) -> Store {
    let mut store = Store::in_memory();
    store.upsert_member(CHAT, user, username, "Кто-то", "2026-08-07T10:00:00Z");
    store.set_stat(CHAT, user, "unanswered_streak", 6);
    store.remember_message(CHAT, 5, user, None);
    store
}

#[test]
fn still_resets_the_streak_when_the_reaction_is_swapped() {
    let mut store = store_with_member(100, Some("someone"));
    observe(&mut store, &swap(5, 7));
    assert_eq!(store.stat(CHAT, 100, "unanswered_streak"), 0);
}

#[test]
fn resets_the_streak_of_the_member_whose_message_was_reacted_to() {
    let mut store = store_with_member(100, Some("someone"));
    let done = observe(&mut store, &reaction(5, 7, true)).expect("the reaction is counted");
    assert!(done.streak_reset);
    assert_eq!(store.stat(CHAT, 100, "unanswered_streak"), 0);
}

#[test]
fn resets_the_streak_of_a_member_who_has_no_username_on_file() {
    let mut store = store_with_member(100, None);
    observe(&mut store, &reaction(5, 7, true));
    assert_eq!(store.stat(CHAT, 100, "unanswered_streak"), 0);
}

#[test]
fn leaves_every_streak_alone_when_the_reacted_message_has_no_member_row() {
    let mut store = Store::in_memory();
    store.set_stat(CHAT, 100, "unanswered_streak", 6);
    store.remember_message(CHAT, 5, 100, None);
    observe(&mut store, &reaction(5, 7, true));
    assert_eq!(store.stat(CHAT, 100, "unanswered_streak"), 6);
}

#[test]
fn leaves_the_streak_alone_when_the_author_reacted_to_themselves() {
    let mut store = store_with_member(100, Some("someone"));
    observe(&mut store, &reaction(5, 100, true));
    assert_eq!(store.stat(CHAT, 100, "unanswered_streak"), 6);
}

#[test]
fn promotes_a_matthew_message_out_of_turn() {
    let mut store = store_with_member(100, Some(MATTHEW_USERNAME));
    store.store_matthew_message(CHAT, 5, "2026-08-07T10:00:00Z", "вне очереди и длинное").unwrap();
    store.store_matthew_message(CHAT, 6, "2026-08-07T10:01:00Z", "в очереди и длинное").unwrap();
    let done = observe(&mut store, &reaction(5, 7, true)).expect("the reaction is counted");
    let quote = done.promoted.expect("a promotion was tried").unwrap().expect("the message was waiting");
    assert!(store.quotes(MATTHEW_SOURCE).contains(&"вне очереди и длинное".to_string()));
    assert_eq!(store.waiting_len(), 1);
    assert_eq!(store.message_owner(CHAT, 5).unwrap().quote, Some(quote));
}

#[test]
fn raises_the_score_of_the_quote_a_reply_carried() {
    let mut store = store_with_member(100, Some("someone"));
    assert!(store.restore_quote(1000, MATTHEW_SOURCE, "редкая цитата", 0));
    store.remember_message(CHAT, 9, 100, Some(1000));
    observe(&mut store, &reaction(9, 7, true));
    observe(&mut store, &swap(9, 8));
    assert_eq!(store.quote_score(1000), Some(1));
}

#[test]
fn does_nothing_for_an_unknown_message() {
    let mut store = store_with_member(100, Some("someone"));
    assert!(observe(&mut store, &reaction(77, 7, true)).is_none());
    assert_eq!(store.stat(CHAT, 100, "unanswered_streak"), 6);
}

#[test]
fn does_nothing_when_a_reaction_is_taken_back() {
    let mut store = store_with_member(100, Some("someone"));
    assert!(observe(&mut store, &reaction(5, 7, false)).is_none());
    assert_eq!(store.stat(CHAT, 100, "unanswered_streak"), 6);
}
