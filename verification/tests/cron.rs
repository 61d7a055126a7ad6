use afanasieff_rs::cron::{burst_length_from, burst_step, decorate, pick, promote_one_message, random_minutes_count, splice, BurstStep};
use afanasieff_rs::sources::{sources, MATTHEW_SOURCE};
use afanasieff_rs::store::Store;
use chrono::Utc;
use rand::rngs::StdRng;
use rand::SeedableRng;

const CHAT: i64 = 12_345_678;

fn seeded(seed: u64) -> StdRng {
    StdRng::seed_from_u64(seed)
}

#[test]
fn puts_the_mention_where_it_is_asked_for() {
    assert_eq!(splice("а б в", "@x", 0), "@x а б в");
    assert_eq!(splice("а б в", "@x", 2), "а б @x в");
    assert_eq!(splice("а б в", "@x", 99), "а б в @x");
}

#[test]
fn sends_a_real_quote_and_remembers_its_id_when_never_generated() {
    let store = Store::in_memory();
    let (text, quote) = pick(&store, &mut seeded(3), 0).expect("a quote is picked");
    assert!(store.quotes(MATTHEW_SOURCE).contains(&text));
    assert!(quote.is_some());
}

#[test]
fn sends_generated_text_with_no_quote_id_when_always_generated() {
    let store = Store::in_memory();
    let (_, quote) = pick(&store, &mut seeded(3), 1000).expect("a phrase is picked");
    assert_eq!(quote, None);
}

#[test]
fn tags_a_member_of_the_chat_inside_the_message() {
    let mut store = Store::in_memory();
    let now = Utc::now().timestamp();
    store.upsert_member(CHAT, 7, Some("m"), "Матвей", &Utc::now().to_rfc3339());
    let text = decorate(&store, CHAT, "терпим и молчим", now, &mut seeded(5), 1000);
    assert!(text.contains("tg://user?id=7"));
    assert!(text.contains("Матвей"));
}

#[test]
fn leaves_the_message_alone_when_the_chat_has_no_members_to_tag() {
    let store = Store::in_memory();
    let now = Utc::now().timestamp();
    assert_eq!(decorate(&store, CHAT, "a < b", now, &mut seeded(5), 1000), "a &lt; b");
}

#[test]
fn leaves_the_message_untagged_when_the_roll_says_so() {
    let mut store = Store::in_memory();
    let now = Utc::now().timestamp();
    store.upsert_member(CHAT, 7, Some("m"), "Матвей", &Utc::now().to_rfc3339());
    let text = decorate(&store, CHAT, "терпим и молчим", now, &mut seeded(5), 0);
    assert!(!text.contains("tg://user?id="));
    assert_eq!(text, "терпим и молчим");
}

#[test]
fn waits_between_one_and_three_hours() {
    let mut rng = seeded(9);
    for _ in 0..100 {
        let minutes = random_minutes_count(&mut rng);
        assert!((60..180).contains(&minutes));
    }
}

#[test]
fn promotes_into_one_of_the_sources() {
    let mut store = Store::in_memory();
    store.store_matthew_message(CHAT, 1, "2026-08-07T10:00:00+00:00", "это сообщение точно длиннее").unwrap();
    let (source, outcome) = promote_one_message(&mut store, &mut seeded(2));
    assert!(sources().contains(&source));
    assert_eq!(outcome.unwrap().as_deref(), Some("это сообщение точно длиннее"));
    assert!(store.quotes(source).contains(&"это сообщение точно длиннее".to_string()));
}

#[test]
fn keeps_a_pinned_burst_length_and_draws_one_to_four_otherwise() {
    assert_eq!(burst_length_from(3, &mut seeded(1)), 3);
    for seed in 0..20 {
        let length = burst_length_from(0, &mut seeded(seed));
        assert!((1..=4).contains(&length));
    }
}

#[test]
fn sends_a_burst_with_pauses_between_and_stops_on_a_failure() {
    assert_eq!(burst_step(0, 2, false), BurstStep::Send { pause: false });
    assert_eq!(burst_step(1, 2, false), BurstStep::Send { pause: true });
    assert_eq!(burst_step(2, 2, false), BurstStep::Stop);
    assert_eq!(burst_step(1, 3, true), BurstStep::Stop);
}
