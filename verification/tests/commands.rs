use afanasieff_rs::commands::{bar, bred, catalogue, day_of, personal, top};
use afanasieff_rs::store::Store;
use afanasieff_rs::update::Author;
use rand::rngs::StdRng;
use rand::SeedableRng;

const DEFAULT_CHAT: i64 = 12_345_678;
const DEFAULT_USER: i64 = 12_345_678;

fn caller() -> Option<Author> {
    Some(Author { id: DEFAULT_USER as u64, is_bot: false, username: None, first_name: "Матвей".to_string() })
}

#[test]
fn lists_every_achievement_with_its_condition() {
    let answer = catalogue();
    assert!(answer.contains("<b>Терпим</b>\n     <i>10 своих сообщений подряд"));
    assert!(answer.contains("<b>Петух в законе</b>\n     <i>собрать пять любых других</i>"));
    assert!(answer.starts_with("🏆 <b>Ачивки</b> · всего 17\n\n🏅 <b>Терпим</b>"));
}

#[test]
fn shows_locked_and_unlocked_achievements_of_the_caller() {
    let store = Store::in_memory();
    let answer = personal(&store, DEFAULT_CHAT, &caller());
    assert!(answer.contains("0 из 17"));
    assert!(answer.contains("🔒"));
    assert!(answer.contains("▱▱▱▱▱▱▱▱▱▱"));
}

#[test]
fn joins_the_header_and_the_locked_list_with_a_single_blank_line_when_nothing_is_owned() {
    let store = Store::in_memory();
    let answer = personal(&store, DEFAULT_CHAT, &caller());
    assert!(answer.contains("0 из 17"));
    assert!(!answer.contains("\n\n\n"));
}

#[test]
fn orders_locked_achievements_by_closeness_to_their_threshold_with_the_meta_one_last() {
    let mut store = Store::in_memory();
    store.set_stat(DEFAULT_CHAT, DEFAULT_USER, "vinograd_mentions", 40);
    store.set_stat(DEFAULT_CHAT, DEFAULT_USER, "unanswered_streak", 1);
    let answer = personal(&store, DEFAULT_CHAT, &caller());
    let closest = answer.find("Сверкающая лысина").expect("the closest achievement is listed");
    let farthest = answer.find("Терпим").expect("the farther achievement is listed");
    let meta = answer.find("Петух в законе").expect("the meta achievement is listed");
    assert!(answer.contains("▰▰▰▰▰▰▰▰▱▱ <code>40/50</code>"));
    assert!(closest < farthest);
    assert!(farthest < meta);
}

#[test]
fn lists_an_unlocked_achievement_with_its_day() {
    let mut store = Store::in_memory();
    store.unlock(DEFAULT_CHAT, DEFAULT_USER, "terpim", "2026-08-06T10:00:00+00:00");
    let answer = personal(&store, DEFAULT_CHAT, &caller());
    assert!(answer.contains("1 из 17"));
    assert!(answer.contains("🏅 <b>Терпим</b> · <i>06.08.2026</i>"));
    assert!(answer.contains("</i>\n\n🔒"));
}

#[test]
fn asks_who_is_asking_without_an_author() {
    assert_eq!(personal(&Store::in_memory(), DEFAULT_CHAT, &None), "Не вижу кто спрашивает.");
}

#[test]
fn draws_a_bar_rounded_to_the_nearest_tenth() {
    assert_eq!(bar(0, 10), "▱▱▱▱▱▱▱▱▱▱");
    assert_eq!(bar(40, 50), "▰▰▰▰▰▰▰▰▱▱");
    assert_eq!(bar(1, 20), "▰▱▱▱▱▱▱▱▱▱");
    assert_eq!(bar(500, 10), "▰▰▰▰▰▰▰▰▰▰");
    assert_eq!(bar(-5, 10), "▱▱▱▱▱▱▱▱▱▱");
    assert_eq!(bar(3, 0), "▰▰▰▰▰▰▰▰▰▰");
    assert_eq!(bar(i64::MAX, 10), "▰▰▰▰▰▰▰▰▰▰");
}

#[test]
fn shows_the_day_of_a_moment_or_the_text_itself() {
    assert_eq!(day_of("2026-08-06T10:00:00+00:00"), "06.08.2026");
    assert_eq!(day_of("вчера"), "вчера");
    assert_eq!(day_of(""), "");
}

#[test]
fn ranks_the_chat_by_collected_achievements() {
    let mut store = Store::in_memory();
    assert_eq!(top(&store, DEFAULT_CHAT), "🏆 <b>Ачивки чата</b>\n\nПока никто ничего не собрал. Терпим.");
    store.upsert_member(DEFAULT_CHAT, 1, Some("one"), "Первый", "2026-08-07T10:00:00+00:00");
    store.unlock(DEFAULT_CHAT, 1, "terpim", "2026-08-07T10:00:00+00:00");
    store.unlock(DEFAULT_CHAT, 2, "haha", "2026-08-07T09:00:00+00:00");
    store.unlock(DEFAULT_CHAT, 2, "vpn", "2026-08-07T09:30:00+00:00");
    assert_eq!(
        top(&store, DEFAULT_CHAT),
        "🏆 <b>Ачивки чата</b>\n\n🥇 <b>2</b> · 2 из 17\n🥈 <b>Первый</b> · 1 из 17"
    );
}

#[test]
fn says_a_phrase_nobody_said() {
    let store = Store::in_memory();
    let answer = bred(&store, &mut StdRng::seed_from_u64(3));
    assert!(!answer.is_empty());
    assert!(!store.all_quotes().contains(&answer) || answer == "Нечего сказать. Терпим.");
    assert_eq!(bred(&Store::empty(), &mut StdRng::seed_from_u64(3)), "Нечего сказать. Терпим.");
}
