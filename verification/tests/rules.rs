use std::collections::HashSet;

use afanasieff_rs::rules::{unlocked, Achievement, Stats};

fn stats(pairs: &[(&str, i64)]) -> Stats {
    Stats::new(pairs.iter().map(|(key, value)| ((*key).to_string(), *value)).collect())
}

fn owned(codes: &[&str]) -> Vec<String> {
    codes.iter().map(|code| (*code).to_string()).collect()
}

#[test]
fn gives_every_achievement_a_unique_code() {
    let all = Achievement::all();
    let codes = all.iter().map(|achievement| achievement.code()).collect::<HashSet<&str>>();
    assert_eq!(codes.len(), all.len(), "unique codes were '{}', expected '{}'", codes.len(), all.len());
}

#[test]
fn unlocks_a_counter_achievement_at_its_threshold() {
    let below = unlocked(&stats(&[("unanswered_streak", 9)]), &Vec::new());
    let at = unlocked(&stats(&[("unanswered_streak", 10)]), &Vec::new());
    assert_eq!((below.len(), at.first().map(|a| a.code())), (0, Some("terpim")));
}

#[test]
fn skips_an_achievement_the_member_already_owns() {
    let given = unlocked(&stats(&[("unanswered_streak", 40)]), &owned(&["terpim"]));
    assert!(given.is_empty(), "unlocking an owned achievement reported '{}' achievements", given.len());
}

#[test]
fn unlocks_the_meta_achievement_on_five_others() {
    let given = unlocked(&stats(&[]), &owned(&["terpim", "haha", "robot", "sofizm", "vpn"]));
    assert_eq!(given.first().map(|a| a.code()), Some("petukh"));
}

#[test]
fn unlocks_the_mention_achievement_from_the_largest_pair_counter() {
    let given = unlocked(&stats(&[("mention:8", 12), ("mention:9", 50)]), &Vec::new());
    assert_eq!(given.first().map(|a| a.code()), Some("ivanchuk"));
}

#[test]
fn reports_progress_towards_a_counter_achievement() {
    let progress = Achievement::Terpim.progress(&stats(&[("unanswered_streak", 4)]));
    assert_eq!(progress, Some((4, 10)), "progress was '{progress:?}', expected 'Some((4, 10))'");
}

#[test]
fn lists_seventeen_achievements() {
    assert_eq!(Achievement::all().len(), 17);
}

#[test]
fn lets_a_later_pair_override_an_earlier_one() {
    let s = stats(&[("apologies", 1), ("apologies", 3)]);
    assert_eq!(s.get("apologies"), 3);
    assert_eq!(s.get("missing"), 0);
    assert_eq!(s.find("missing"), None);
}

#[test]
fn reads_the_largest_counter_with_a_prefix() {
    let s = stats(&[("mention:1", 4), ("mention:2", 9), ("other", 100)]);
    assert_eq!(s.max_with_prefix("mention:"), 9);
    assert_eq!(s.max_with_prefix("nothing:"), 0);
}
