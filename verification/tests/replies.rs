use afanasieff_rs::replies::{keyword_reply, random_string_from, route, Keyword};
use afanasieff_rs::update::Incoming;
use afanasieff_rs::sources::{STREAM_SOURCE, VINOGRAD_SOURCE};
use afanasieff_rs::store::Store;
use rand::rngs::StdRng;
use rand::SeedableRng;

fn seeded(seed: u64) -> StdRng {
    StdRng::seed_from_u64(seed)
}

#[test]
fn answers_a_keyword_with_a_quote_of_its_source_when_never_generated() {
    let store = Store::in_memory();
    let (text, quote) = keyword_reply(&store, VINOGRAD_SOURCE, &mut seeded(2), 0).expect("a quote is picked");
    assert!(store.quotes(VINOGRAD_SOURCE).contains(&text));
    assert!(quote.is_some());
}

#[test]
fn answers_a_keyword_with_a_generated_phrase_when_always_generated() {
    let store = Store::in_memory();
    let (text, quote) = keyword_reply(&store, STREAM_SOURCE, &mut seeded(2), 1000).expect("a phrase is picked");
    assert_eq!(quote, None);
    assert!(!store.all_quotes().contains(&text));
    assert!(text.split_whitespace().count() >= 3);
}

#[test]
fn answers_nothing_for_a_source_without_quotes_when_never_generated() {
    let store = Store::in_memory();
    assert_eq!(keyword_reply(&store, "nobody", &mut seeded(2), 0), None);
}

#[test]
fn draws_an_entry_of_the_pool() {
    let pool = vec!["раз", "два", "три"];
    for seed in 0..10 {
        let got = random_string_from(&pool, &mut seeded(seed)).expect("an entry is drawn");
        assert!(pool.contains(&got));
    }
}

fn said(text: Option<&str>) -> Incoming {
    Incoming {
        chat: 1,
        message_id: 1,
        date: 1_786_000_000,
        from: None,
        text: text.map(str::to_string),
        reply_from: None,
        entities: Vec::new(),
    }
}

#[test]
fn answers_the_stream_before_matthew_and_matthew_before_vinogradov() {
    assert_eq!(route(&said(Some("Матвей, где Стрим?"))), Some(Keyword::Stream));
    assert_eq!(route(&said(Some("матвей и виноград"))), Some(Keyword::Matthew));
    assert_eq!(route(&said(Some("ВИНОГРАД"))), Some(Keyword::Vinograd));
    assert_eq!(route(&said(Some("просто текст"))), None);
    assert_eq!(route(&said(None)), None);
}
