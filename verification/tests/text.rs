use afanasieff_rs::text::{
    has_mat, is_apology, is_call_to_play, is_laugh_only, is_politics, mentions_stream, mentions_vinograd,
    tokens,
};

fn mat(text: &str) -> bool {
    has_mat(&tokens(text))
}

#[test]
fn collapses_repeated_letters_into_one() {
    let collapsed = tokens("хуууууй");
    assert_eq!(
        collapsed,
        vec!["хуй".to_string()],
        "tokens were '{collapsed:?}', expected the repeats collapsed to 'хуй'"
    );
}

#[test]
fn folds_latin_lookalikes_into_cyrillic() {
    let folded = tokens("CYKA");
    assert_eq!(
        folded,
        vec!["сука".to_string()],
        "tokens were '{folded:?}', expected the latin letters folded into 'сука'"
    );
}

#[test]
fn splits_on_everything_that_is_not_a_letter_or_a_digit() {
    let split = tokens("идем 1х1, ага!");
    assert_eq!(
        split,
        vec!["идем".to_string(), "1х1".to_string(), "ага".to_string()],
        "tokens were '{split:?}', expected three tokens"
    );
}

#[test]
fn finds_mat_behind_a_prefix() {
    for text in ["въебал", "нахуярить", "ебало", "мудак", "блядь", "хуйло"] {
        assert!(mat(text), "text '{text}' was not detected as mat, expected it to be");
    }
}

#[test]
fn leaves_innocent_words_alone() {
    for text in ["требуется", "себе", "хлебом", "мудрый", "бляха", "херсон", "сукно"] {
        assert!(!mat(text), "text '{text}' was detected as mat, expected it not to be");
    }
}

#[test]
fn tokenizes_an_empty_text_into_nothing() {
    assert!(tokens("").is_empty());
    assert!(tokens("  ,!? ").is_empty());
}

#[test]
fn reads_a_call_to_play() {
    let words = tokens("слышь ты нахуй, го в доту");
    assert!(is_call_to_play(&words));
    assert!(!is_call_to_play(&tokens("го гулять")));
    assert!(!is_call_to_play(&tokens("дота это жизнь")));
}

#[test]
fn reads_an_apology() {
    assert!(is_apology("Извините", &tokens("Извините")));
    assert!(is_apology("ну 🙏", &tokens("ну 🙏")));
    assert!(!is_apology("терпим", &tokens("терпим")));
}

#[test]
fn reads_politics_laughter_and_the_stream() {
    assert!(is_politics(&tokens("опять эти выборы")));
    assert!(!is_politics(&tokens("опять эти пельмени")));
    assert!(is_laugh_only(&tokens("ахахах хах")));
    assert!(!is_laugh_only(&tokens("ахахах смешно")));
    assert!(!is_laugh_only(&tokens("")));
    assert!(mentions_stream(&tokens("когда стрим?")));
    assert!(mentions_vinograd(&tokens("Виноградов опять")));
    assert!(!mentions_vinograd(&tokens("стрим")));
}

#[test]
fn tokens_of_the_joined_tokens_are_the_same_tokens() {
    for text in ["Привееет, МИР!!! hello--world", "ааа   ббб", "", "Сука, извини 🙏"] {
        let once = tokens(text);
        assert_eq!(tokens(&once.join(" ")), once);
    }
}
