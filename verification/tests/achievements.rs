use afanasieff_rs::achievements::{award_text_of, record_bot_reply, track_and_award};
use afanasieff_rs::apply::apply;
use afanasieff_rs::event::{Event, Mention};
use afanasieff_rs::rules::Achievement;
use afanasieff_rs::store::Store;
use afanasieff_rs::update::{Author, Entity, Incoming, Update};
use chrono::{TimeZone, Utc};

const CHAT: i64 = 12_345_678;

fn author(id: u64, username: &str) -> Author {
    Author { id, is_bot: false, username: Some(username.to_string()), first_name: "Матвей".to_string() }
}

fn at(hour: u32, minute: u32) -> i64 {
    Utc.with_ymd_and_hms(2026, 8, 6, hour, minute, 0).unwrap().timestamp()
}

fn message(text: &str, from: Author, id: i32, date: i64) -> Incoming {
    Incoming {
        chat: CHAT,
        message_id: id,
        date,
        from: Some(from),
        text: Some(text.to_string()),
        reply_from: None,
        entities: Vec::new(),
    }
}

fn event_of(text: &str, user: u64, id: i32) -> Event {
    Event::parse(&Update::Message(message(text, author(user, "matthew"), id, at(12, 0))))
        .expect("the message parses into an event")
}

#[test]
fn reads_the_author_and_the_flags_of_a_message() {
    let update = Update::Message(message("слышь ты нахуй, го в доту", author(7, "matthew"), 1, at(23, 30)));
    let event = Event::parse(&update).expect("a text message parses into an event");
    assert_eq!(event.user, 7);
    assert!(event.mat);
    assert!(event.call_to_play);
    assert_eq!(event.hour_msk, 2);
    assert_eq!(event.len, 25);
}

#[test]
fn reads_the_reply_target_of_a_message() {
    let mut reply = message("сам терпи", author(7, "matthew"), 2, at(12, 0));
    reply.reply_from = Some(author(8, "stream"));
    let event = Event::parse(&Update::Message(reply)).expect("a reply parses into an event");
    assert_eq!(event.reply_to_user, Some(8));
    assert!(!event.reply_to_bot);
}

#[test]
fn skips_a_message_written_by_a_bot() {
    let bot = Author { id: 9, is_bot: true, username: None, first_name: "bot".to_string() };
    assert!(Event::parse(&Update::Message(message("терпим", bot, 1, at(12, 0)))).is_none());
    assert!(Event::parse(&Update::Other).is_none());
}

#[test]
fn collects_mentions_by_username_and_by_id() {
    let mut m = message("@stream иди сюда", author(7, "matthew"), 1, at(12, 0));
    m.entities = vec![Entity::Mention("@Stream".to_string())];
    let event = Event::parse(&Update::Message(m)).expect("a mention parses into an event");
    assert_eq!(event.mentions, vec![Mention::Username("stream".to_string())]);
    let mut m = message("эй ты", author(7, "matthew"), 2, at(12, 0));
    m.entities = vec![Entity::TextMention(11), Entity::Other, Entity::TextMention(u64::MAX)];
    let event = Event::parse(&Update::Message(m)).expect("a mention parses into an event");
    assert_eq!(event.mentions, vec![Mention::Id(11), Mention::Id(i64::MAX)]);
}

#[test]
fn counts_a_message_once_per_message_id() {
    let mut store = Store::in_memory();
    let event = event_of("терпим", 7, 5);
    let first = apply(&mut store, &event).unwrap();
    let again = apply(&mut store, &event).unwrap();
    assert!(first);
    assert!(!again);
    assert_eq!(store.stat(event.chat, event.user, "unanswered_streak"), 1);
}

#[test]
fn skips_a_message_whose_id_is_lower_than_the_last_processed_one() {
    let mut store = Store::in_memory();
    let first = event_of("терпим", 7, 5);
    let earlier = event_of("терпим", 7, 3);
    apply(&mut store, &first).unwrap();
    assert!(!apply(&mut store, &earlier).unwrap());
    assert_eq!(store.stat(first.chat, first.user, "unanswered_streak"), 1);
}

#[test]
fn grows_the_unanswered_streak_until_someone_replies() {
    let mut store = Store::in_memory();
    for id in 1..=3 {
        apply(&mut store, &event_of("ну че вы", 7, id)).unwrap();
    }
    let grown = store.stat(CHAT, 7, "unanswered_streak");
    let mut reply = message("да понял я", author(8, "stream"), 4, at(12, 1));
    reply.reply_from = Some(author(7, "matthew"));
    apply(&mut store, &Event::parse(&Update::Message(reply)).unwrap()).unwrap();
    assert_eq!(grown, 3);
    assert_eq!(store.stat(CHAT, 7, "unanswered_streak"), 0);
}

#[test]
fn counts_a_monologue_of_five_messages() {
    let mut store = Store::in_memory();
    for id in 1..=5 {
        apply(&mut store, &event_of("говорю сам с собой", 7, id)).unwrap();
    }
    assert_eq!(store.stat(CHAT, 7, "monologues"), 1);
    apply(&mut store, &event_of("и ещё", 7, 6)).unwrap();
    assert_eq!(store.stat(CHAT, 7, "monologues"), 1);
}

fn call_then_answer(minutes: u32) -> i64 {
    let mut store = Store::in_memory();
    let call = Event::parse(&Update::Message(message("го в доту", author(7, "matthew"), 1, at(12, 0)))).unwrap();
    apply(&mut store, &call).unwrap();
    let answer = Event::parse(&Update::Message(message("да я занят", author(8, "stream"), 2, at(12, minutes)))).unwrap();
    apply(&mut store, &answer).unwrap();
    store.stat(call.chat, call.user, "unanswered_calls")
}

#[test]
fn counts_an_unanswered_call_when_someone_else_answers_after_the_timeout() {
    assert_eq!(call_then_answer(11), 1);
}

#[test]
fn does_not_count_a_call_answered_by_someone_else_within_the_timeout() {
    assert_eq!(call_then_answer(5), 0);
}

#[test]
fn counts_a_quote_the_bot_sent_to_a_member() {
    let mut store = Store::in_memory();
    let m = message("а виноград то вкусный", author(7, "matthew"), 1, at(12, 0));
    record_bot_reply(&mut store, &m).unwrap();
    record_bot_reply(&mut store, &m).unwrap();
    assert_eq!(store.stat(CHAT, 7, "bot_replies"), 2);
}

#[test]
fn counts_an_apology_within_a_minute_of_mat() {
    let mut store = Store::in_memory();
    let swear = Event::parse(&Update::Message(message("сука", author(7, "matthew"), 1, at(12, 0)))).unwrap();
    apply(&mut store, &swear).unwrap();
    assert_eq!(store.stat(CHAT, 7, "last_mat_at"), at(12, 0));
    let sorry = Event::parse(&Update::Message(message("извините", author(7, "matthew"), 2, at(12, 1)))).unwrap();
    apply(&mut store, &sorry).unwrap();
    assert_eq!(store.stat(CHAT, 7, "apologies"), 1);
    assert_eq!(store.stat(CHAT, 7, "last_mat_at"), 0);
}

#[test]
fn counts_an_ignored_ping_and_who_mentioned_whom() {
    let mut store = Store::in_memory();
    store.upsert_member(CHAT, 8, Some("Stream"), "Стрим", "2026-08-06T10:00:00+00:00");
    let mut ping = message("@stream ау", author(7, "matthew"), 1, at(10, 0));
    ping.entities = vec![Entity::Mention("@stream".to_string())];
    apply(&mut store, &Event::parse(&Update::Message(ping)).unwrap()).unwrap();
    assert_eq!(store.stat(CHAT, 8, "pinged_at"), at(10, 0));
    assert_eq!(store.stat(CHAT, 7, "mention:8"), 1);
    let late = message("что", author(8, "stream"), 2, at(12, 0));
    apply(&mut store, &Event::parse(&Update::Message(late)).unwrap()).unwrap();
    assert_eq!(store.stat(CHAT, 8, "ignored_pings"), 1);
    assert_eq!(store.stat(CHAT, 8, "pinged_at"), 0);
}

#[test]
fn grows_a_chain_of_replies_between_two_members() {
    let mut store = Store::in_memory();
    for id in 1..=4 {
        let (from, to) = if id % 2 == 1 { (7, 8) } else { (8, 7) };
        let mut m = message("ответ", author(from, "x"), id, at(12, id as u32));
        m.reply_from = Some(author(to, "y"));
        apply(&mut store, &Event::parse(&Update::Message(m)).unwrap()).unwrap();
    }
    assert_eq!(store.stat(CHAT, 7, "chain_len"), 4);
    assert_eq!(store.stat(CHAT, 8, "chain_len"), 4);
}

#[test]
fn announces_the_streak_achievement_once() {
    let mut store = Store::in_memory();
    let mut announced = 0;
    for id in 1..=12 {
        let update = Update::Message(message("ну и ладно", author(7, "matthew"), id, at(12, id as u32)));
        let handled = track_and_award(&mut store, &update).expect("a message is handled");
        announced += handled.awards.iter().filter(|award| award.text.contains("Тебе никто не ответил")).count();
    }
    assert_eq!(announced, 1);
}

#[test]
fn escapes_html_special_characters_in_the_announced_display_name() {
    let mut store = Store::in_memory();
    let mut announcement = None;
    for id in 1..=10 {
        let mut from = author(7, "matthew");
        from.first_name = "Ма<b>твей & Co".to_string();
        let update = Update::Message(message("ну и ладно", from, id, at(12, id as u32)));
        let handled = track_and_award(&mut store, &update).expect("a message is handled");
        for award in handled.awards {
            if award.text.contains("Тебе никто не ответил") {
                announcement = Some(award.text);
            }
        }
    }
    let announcement = announcement.expect("the streak achievement was announced");
    assert!(announcement.contains("Ма&lt;b&gt;твей &amp; Co"));
    assert!(!announcement.contains("<b>твей"));
}

#[test]
fn writes_the_announcement_in_matthews_voice() {
    let event = event_of("терпим", 7, 1);
    assert_eq!(
        award_text_of(&event, Achievement::Terpim),
        "🏆 <a href=\"tg://user?id=7\">Матвей</a> — «Терпим»\nТебе никто не ответил. И мы потерпим."
    );
}

#[test]
fn leaves_the_store_alone_for_an_update_that_is_not_a_message() {
    let mut store = Store::in_memory();
    assert!(track_and_award(&mut store, &Update::Other).is_none());
    assert_eq!(store.stats(CHAT, 7).keys().len(), 0);
}
