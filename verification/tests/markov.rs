use afanasieff_rs::markov::{chain_of, generate, split_whitespace};
use rand::rngs::StdRng;
use rand::SeedableRng;

fn corpus() -> Vec<String> {
    ["я петух в законе", "я белогвардеец и в законе", "терпим и молчим", "мы на сво пойдем родину защищать"]
        .iter()
        .map(|line| (*line).to_string())
        .collect()
}

fn seeded(seed: u64) -> StdRng {
    StdRng::seed_from_u64(seed)
}

#[test]
fn builds_a_phrase_out_of_words_the_corpus_uses() {
    let corpus = corpus();
    let known = corpus.iter().flat_map(|line| line.split_whitespace()).map(str::to_string).collect::<Vec<String>>();
    let phrase = generate(&corpus, &mut seeded(7)).expect("a phrase is generated");
    for word in phrase.split_whitespace() {
        assert!(known.contains(&word.to_string()), "word '{word}' is not in the corpus");
    }
}

#[test]
fn never_repeats_a_quote_word_for_word() {
    let corpus = corpus();
    for seed in 0..50 {
        let phrase = generate(&corpus, &mut seeded(seed)).expect("a phrase is generated");
        assert!(!corpus.contains(&phrase), "phrase '{phrase}' repeats a quote");
    }
}

#[test]
fn generates_nothing_from_an_empty_corpus() {
    assert_eq!(generate(&Vec::new(), &mut seeded(1)), None);
}

#[test]
fn gives_up_when_the_corpus_holds_a_single_quote() {
    let only = vec!["одна единственная цитата".to_string()];
    assert_eq!(generate(&only, &mut seeded(1)), None);
}

#[test]
fn keeps_a_phrase_within_the_length_cap() {
    let corpus = corpus();
    for seed in 0..50 {
        let phrase = generate(&corpus, &mut seeded(seed)).expect("a phrase is generated");
        let words = phrase.split_whitespace().count();
        assert!((3..=25).contains(&words), "phrase '{phrase}' has {words} words");
    }
}

#[test]
fn lists_the_followers_of_each_word_in_corpus_order() {
    let chain = chain_of(&corpus());
    let after_i = chain.iter().find(|(word, _)| word == "я").expect("'я' has followers");
    assert_eq!(after_i.1, vec!["петух".to_string(), "белогвардеец".to_string()]);
    let after_v = chain.iter().find(|(word, _)| word == "в").expect("'в' has followers");
    assert_eq!(after_v.1, vec!["законе".to_string(), "законе".to_string()]);
    assert!(chain.iter().all(|(word, _)| word != "защищать"));
}

#[test]
fn splits_on_white_space_only() {
    assert_eq!(
        split_whitespace("  я,  петух\tв\nзаконе "),
        vec!["я,".to_string(), "петух".to_string(), "в".to_string(), "законе".to_string()]
    );
}
