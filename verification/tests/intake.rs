use afanasieff_rs::intake::{collect_matthew_message, is_written_by_matthew, observe, preview, Collected};
use afanasieff_rs::sources::{MATTHEW_SOURCE, MATTHEW_USERNAME};
use afanasieff_rs::store::Store;
use afanasieff_rs::update::{Author, Incoming, Update};

fn from(username: &str) -> Author {
    Author { id: 7, is_bot: false, username: Some(username.to_string()), first_name: "Матвей".to_string() }
}

fn message(text: &str, author: Author) -> Incoming {
    Incoming {
        chat: 12_345_678,
        message_id: 1,
        date: 1_786_000_000,
        from: Some(author),
        text: Some(text.to_string()),
        reply_from: None,
        entities: Vec::new(),
    }
}

#[test]
fn collects_a_long_message_written_by_matthew() {
    let mut store = Store::in_memory();
    observe(&mut store, &Update::Message(message("это сообщение точно длиннее десяти символов", from(MATTHEW_USERNAME))));
    assert!(store.promote_oldest_matthew_message(MATTHEW_SOURCE).unwrap().is_some());
}

#[test]
fn ignores_a_message_shorter_than_the_threshold() {
    let mut store = Store::in_memory();
    let seen = observe(&mut store, &Update::Message(message("коротко", from(MATTHEW_USERNAME))));
    assert_eq!(seen, Some(Collected::TooShort));
    assert!(store.promote_oldest_matthew_message(MATTHEW_SOURCE).unwrap().is_none());
}

#[test]
fn ignores_a_message_written_by_anyone_else() {
    let mut store = Store::in_memory();
    let seen = observe(&mut store, &Update::Message(message("это сообщение точно длиннее десяти символов", from("SomeoneElse"))));
    assert_eq!(seen, Some(Collected::NotMatthew));
    assert!(store.promote_oldest_matthew_message(MATTHEW_SOURCE).unwrap().is_none());
}

#[test]
fn remembers_every_observed_chat_once() {
    let mut store = Store::in_memory();
    observe(&mut store, &Update::Message(message("привет всем в этом чате", from(MATTHEW_USERNAME))));
    observe(&mut store, &Update::Message(message("привет всем в этом чате", from(MATTHEW_USERNAME))));
    assert_eq!(store.chats().len(), 1);
}

#[test]
fn collects_the_same_message_id_only_once() {
    let mut store = Store::in_memory();
    let text = "это сообщение точно длиннее десяти символов";
    let first = observe(&mut store, &Update::Message(message(text, from(MATTHEW_USERNAME))));
    let again = observe(&mut store, &Update::Message(message(text, from(MATTHEW_USERNAME))));
    assert_eq!(first, Some(Collected::Stored));
    assert_eq!(again, Some(Collected::AlreadyStored));
    assert!(store.promote_oldest_matthew_message(MATTHEW_SOURCE).unwrap().is_some());
    assert!(store.promote_oldest_matthew_message(MATTHEW_SOURCE).unwrap().is_none());
}

#[test]
fn promotes_a_matthew_message_into_quotes_verbatim() {
    let mut store = Store::in_memory();
    let text = "это сообщение точно длиннее десяти символов";
    let m = message(text, from(MATTHEW_USERNAME));
    assert_eq!(collect_matthew_message(&mut store, &m), Collected::Stored);
    let promoted = store.promote_oldest_matthew_message(MATTHEW_SOURCE).unwrap();
    assert_eq!(promoted.as_deref(), Some(text));
    assert!(store.quotes(MATTHEW_SOURCE).contains(&text.to_string()));
}

#[test]
fn recognises_matthew_ignoring_case() {
    assert!(is_written_by_matthew(&message("x", from("matthewafn"))));
    assert!(!is_written_by_matthew(&message("x", from("matthew"))));
}

#[test]
fn remembers_who_wrote_an_observed_message() {
    let mut store = Store::in_memory();
    observe(&mut store, &Update::Message(message("привет", from("someone"))));
    assert_eq!(store.message_owner(12_345_678, 1).map(|owner| owner.user), Some(7));
    assert_eq!(observe(&mut store, &Update::Other), None);
}

#[test]
fn shortens_a_long_text_for_the_log() {
    let long = "а".repeat(61);
    assert_eq!(preview(&long), format!("{}...", "а".repeat(60)));
    assert_eq!(preview(&"б".repeat(60)), "б".repeat(60));
    assert_eq!(preview(""), "");
}
