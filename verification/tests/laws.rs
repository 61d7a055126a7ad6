use afanasieff_rs::apply::apply;
use afanasieff_rs::cuckold::{roll, CUCKOLD_BEST, CUCKOLD_STREAK};
use afanasieff_rs::event::Event;
use afanasieff_rs::store::Store;
use afanasieff_rs::update::{Author, Incoming, Update};
use rand::rngs::StdRng;
use rand::SeedableRng;

#[test]
fn counts_a_message_once_and_leaves_the_counters_alone_the_second_time() {
    let mut store = Store::in_memory();
    let m = Incoming {
        chat: 1,
        message_id: 10,
        date: 1_786_000_000,
        from: Some(Author { id: 5, is_bot: false, username: None, first_name: "А".to_string() }),
        text: Some("ахаха сука".to_string()),
        reply_from: None,
        entities: Vec::new(),
    };
    let event = Event::parse(&Update::Message(m)).unwrap();
    assert_eq!(apply(&mut store, &event), Ok(true));
    let before = store.stats(1, 5).keys().len();
    let streak = store.stat(1, 5, "unanswered_streak");
    assert_eq!(apply(&mut store, &event), Ok(false));
    assert_eq!(store.stats(1, 5).keys().len(), before);
    assert_eq!(store.stat(1, 5, "unanswered_streak"), streak);
}

#[test]
fn keeps_the_best_run_of_a_winner() {
    let mut store = Store::in_memory();
    store.upsert_member(1, 5, None, "А", "2026-08-07T10:00:00+00:00");
    store.set_stat(1, 5, CUCKOLD_BEST, 7);
    let day = 1_786_096_800;
    let drawn = roll(&mut store, 1, day, &mut StdRng::seed_from_u64(4)).unwrap().unwrap();
    assert_eq!(store.stat(1, 5, CUCKOLD_STREAK), drawn.streak);
    assert_eq!(store.stat(1, 5, CUCKOLD_BEST), 7);
}
