use vstd::prelude::*;

use crate::chars::{
    alphanumeric, chars_of, has_prefix, is_alphanumeric, lowercase, starts_with, string_of,
    to_lowercase,
};
use crate::words::{
    apology_list, apology_stems, game_list, game_stems, laugh_chars, mat_exceptions,
    mat_exceptions_list, mat_roots, mat_roots_list, politics_list, politics_stems, prefixes,
    prefixes_list, stream_stem, vinograd_stem,
};

use crate::layout::joined;

verus! {

/// Latin letters that look like Cyrillic ones are read as the Cyrillic letter.
pub open spec fn fold_char(c: char) -> char {
    if c == 'a' { 'а' }
    else if c == 'e' { 'е' }
    else if c == 'o' { 'о' }
    else if c == 'p' { 'р' }
    else if c == 'c' { 'с' }
    else if c == 'x' { 'х' }
    else if c == 'y' { 'у' }
    else if c == 'k' { 'к' }
    else if c == 'b' { 'в' }
    else if c == 'm' { 'м' }
    else if c == 'h' { 'н' }
    else if c == 't' { 'т' }
    else { c }
}

/// Every run of one repeated character shortened to a single character.
pub open spec fn collapse(s: Seq<char>) -> Seq<char>
    decreases s.len(),
{
    if s.len() == 0 {
        s
    } else {
        let rest = collapse(s.drop_last());
        if s.len() >= 2 && s[s.len() - 2] == s.last() {
            rest
        } else {
            rest.push(s.last())
        }
    }
}

/// The text lowercased, with look-alike letters folded and runs collapsed.
pub open spec fn normalized(text: Seq<char>) -> Seq<char> {
    collapse(lowercase(text).map_values(|c: char| fold_char(c)))
}

/// The maximal runs of alphanumeric characters of `s`, the first one
/// continuing `cur`.
pub open spec fn split_words(s: Seq<char>, cur: Seq<char>) -> Seq<Seq<char>>
    decreases s.len(),
{
    if s.len() == 0 {
        if cur.len() > 0 { seq![cur] } else { seq![] }
    } else if alphanumeric(s[0]) {
        split_words(s.drop_first(), cur.push(s[0]))
    } else {
        (if cur.len() > 0 { seq![cur] } else { seq![] }) + split_words(s.drop_first(), seq![])
    }
}

/// The words of a message, as the achievements read them.
pub open spec fn token_seq(text: Seq<char>) -> Seq<Seq<char>> {
    split_words(normalized(text), seq![])
}

/// The view of a list of strings.
pub open spec fn views(v: Seq<String>) -> Seq<Seq<char>> {
    v.map_values(|t: String| t@)
}

/// The word starts with the stem, possibly behind a prefix and a hard or
/// soft sign.
pub open spec fn after_prefix(token: Seq<char>, root: Seq<char>) -> bool {
    ||| starts_with(token, root)
    ||| exists|i: int| 0 <= i < prefixes().len() && #[trigger] starts_with(token, prefixes()[i]) && {
        let rest = token.skip(prefixes()[i].len() as int);
        ||| starts_with(rest, root)
        ||| (rest.len() > 0 && (rest[0] == 'ъ' || rest[0] == 'ь') && starts_with(rest.skip(1), root))
    }
}

/// The word is obscene: it starts with an obscene stem, possibly behind a
/// prefix, and is none of the known innocent words.
pub open spec fn is_mat_word(token: Seq<char>) -> bool {
    &&& !exists|i: int| 0 <= i < mat_exceptions().len() && #[trigger] starts_with(token, mat_exceptions()[i])
    &&& exists|i: int| 0 <= i < mat_roots().len() && #[trigger] after_prefix(token, mat_roots()[i])
}

/// Some word starts with one of the stems.
pub open spec fn any_starts_with(tokens: Seq<Seq<char>>, stems: Seq<Seq<char>>) -> bool {
    exists|i: int, j: int| 0 <= i < tokens.len() && 0 <= j < stems.len() && #[trigger] starts_with(tokens[i], #[trigger] stems[j])
}

fn fold(character: char) -> (r: char)
    ensures
        r == fold_char(character),
{
    match character {
        'a' => 'а',
        'e' => 'е',
        'o' => 'о',
        'p' => 'р',
        'c' => 'с',
        'x' => 'х',
        'y' => 'у',
        'k' => 'к',
        'b' => 'в',
        'm' => 'м',
        'h' => 'н',
        't' => 'т',
        other => other,
    }
}

/// Lowercases the text, folds look-alike letters and collapses runs.
fn normalize(text: &str) -> (r: Vec<char>)
    ensures
        r@ == normalized(text@),
{
    let lowered = to_lowercase(text);
    let source = chars_of(lowered.as_str());
    let ghost folded = source@.map_values(|c: char| fold_char(c));
    let mut normalized: Vec<char> = Vec::new();
    let mut i: usize = 0;
    while i < source.len()
        invariant
            i <= source.len(),
            folded == source@.map_values(|c: char| fold_char(c)),
            normalized@ == collapse(folded.take(i as int)),
        decreases source.len() - i,
    {
        let character = fold(source[i]);
        let keep = i == 0 || fold(source[i - 1]) != character;
        if keep {
            normalized.push(character);
        }
        proof {
            let next = folded.take(i + 1);
            assert(next.drop_last() =~= folded.take(i as int));
            assert(next.last() == character);
            if i > 0 {
                assert(next[next.len() - 2] == fold_char(source@[i - 1]));
            }
        }
        i = i + 1;
    }
    assert(folded.take(source.len() as int) =~= folded);
    normalized
}

/// Splits the normalized text into words: maximal runs of letters and digits.
pub fn tokens(text: &str) -> (r: Vec<String>)
    ensures
        views(r@) == token_seq(text@),
{
    let normalized = normalize(text);
    let ghost whole = normalized@;
    let mut words: Vec<String> = Vec::new();
    let mut current: Vec<char> = Vec::new();
    let mut i: usize = 0;
    assert(whole.skip(0) =~= whole);
    while i < normalized.len()
        invariant
            i <= normalized.len(),
            whole == normalized@,
            views(words@) + split_words(whole.skip(i as int), current@) == split_words(whole, seq![]),
        decreases normalized.len() - i,
    {
        let ghost rest = whole.skip(i as int);
        assert(rest.drop_first() =~= whole.skip(i + 1));
        assert(rest[0] == normalized@[i as int]);
        let character = normalized[i];
        if is_alphanumeric(character) {
            current.push(character);
        } else {
            if current.len() > 0 {
                let word = string_of(&current);
                let ghost before = words@;
                words.push(word);
                assert(views(words@) =~= views(before) + seq![current@]);
            }
            current = Vec::new();
        }
        i = i + 1;
    }
    if current.len() > 0 {
        let word = string_of(&current);
        let ghost before = words@;
        words.push(word);
        assert(views(words@) =~= views(before) + seq![current@]);
    }
    assert(views(words@) =~= split_words(whole, seq![]));
    words
}

fn starts_with_any(token: &Vec<char>, stems: &Vec<&'static str>) -> (r: bool)
    ensures
        r == exists|i: int| 0 <= i < stems@.len() && #[trigger] starts_with(token@, stems@[i]@),
{
    let mut i: usize = 0;
    while i < stems.len()
        invariant
            i <= stems.len(),
            forall|j: int| 0 <= j < i ==> !#[trigger] starts_with(token@, stems@[j]@),
        decreases stems.len() - i,
    {
        let stem = chars_of(stems[i]);
        if has_prefix(token.as_slice(), stem.as_slice()) {
            return true;
        }
        i = i + 1;
    }
    false
}

/// The stem begins the word, possibly behind a prefix and a hard or soft sign.
fn starts_after_prefix(token: &Vec<char>, root: &Vec<char>, prefixes: &Vec<&'static str>) -> (r: bool)
    requires
        prefixes@.map_values(|w: &str| w@) == crate::words::prefixes(),
    ensures
        r == after_prefix(token@, root@),
{
    if has_prefix(token.as_slice(), root.as_slice()) {
        return true;
    }
    let ghost table = prefixes@.map_values(|w: &str| w@);
    let mut i: usize = 0;
    while i < prefixes.len()
        invariant
            i <= prefixes.len(),
            table == prefixes@.map_values(|w: &str| w@),
            table == crate::words::prefixes(),
            !starts_with(token@, root@),
            forall|j: int| 0 <= j < i ==> !({
                &&& #[trigger] starts_with(token@, table[j])
                &&& {
                    let rest = token@.skip(table[j].len() as int);
                    ||| starts_with(rest, root@)
                    ||| (rest.len() > 0 && (rest[0] == 'ъ' || rest[0] == 'ь') && starts_with(rest.skip(1), root@))
                }
            }),
        decreases prefixes.len() - i,
    {
        let prefix = chars_of(prefixes[i]);
        assert(table[i as int] == prefix@);
        if has_prefix(token.as_slice(), prefix.as_slice()) {
            let mut rest: Vec<char> = Vec::new();
            let mut k: usize = prefix.len();
            while k < token.len()
                invariant
                    prefix.len() <= k <= token.len(),
                    rest@ == token@.subrange(prefix.len() as int, k as int),
                decreases token.len() - k,
            {
                rest.push(token[k]);
                k = k + 1;
            }
            assert(rest@ =~= token@.skip(prefix.len() as int));
            if has_prefix(rest.as_slice(), root.as_slice()) {
                return true;
            }
            if rest.len() > 0 && (rest[0] == 'ъ' || rest[0] == 'ь') {
                let mut after: Vec<char> = Vec::new();
                let mut m: usize = 1;
                while m < rest.len()
                    invariant
                        1 <= m <= rest.len(),
                        after@ == rest@.subrange(1, m as int),
                    decreases rest.len() - m,
                {
                    after.push(rest[m]);
                    m = m + 1;
                }
                assert(after@ =~= rest@.skip(1));
                if has_prefix(after.as_slice(), root.as_slice()) {
                    return true;
                }
            }
        }
        i = i + 1;
    }
    false
}

fn is_mat(token: &Vec<char>, exceptions: &Vec<&'static str>, roots: &Vec<&'static str>, prefixes: &Vec<&'static str>) -> (r: bool)
    requires
        exceptions@.map_values(|w: &str| w@) == mat_exceptions(),
        roots@.map_values(|w: &str| w@) == mat_roots(),
        prefixes@.map_values(|w: &str| w@) == crate::words::prefixes(),
    ensures
        r == is_mat_word(token@),
{
    let excepted = starts_with_any(token, exceptions);
    proof {
        assert forall|i: int| 0 <= i < exceptions@.len() implies exceptions@[i]@ == mat_exceptions()[i] by {
            assert(exceptions@.map_values(|w: &str| w@)[i] == exceptions@[i]@);
        }
    }
    if excepted {
        return false;
    }
    let mut i: usize = 0;
    while i < roots.len()
        invariant
            i <= roots.len(),
            roots@.map_values(|w: &str| w@) == mat_roots(),
            prefixes@.map_values(|w: &str| w@) == crate::words::prefixes(),
            !exists|e: int| 0 <= e < mat_exceptions().len() && #[trigger] starts_with(token@, mat_exceptions()[e]),
            forall|j: int| 0 <= j < i ==> !#[trigger] after_prefix(token@, mat_roots()[j]),
        decreases roots.len() - i,
    {
        let root = chars_of(roots[i]);
        assert(roots@.map_values(|w: &str| w@)[i as int] == root@);
        if starts_after_prefix(token, &root, prefixes) {
            return true;
        }
        i = i + 1;
    }
    false
}

/// Some word of the message is obscene.
pub open spec fn has_mat_spec(tokens: Seq<Seq<char>>) -> bool {
    exists|i: int| 0 <= i < tokens.len() && #[trigger] is_mat_word(tokens[i])
}

/// Tells whether any of the words is obscene.
pub fn has_mat(tokens: &[String]) -> (r: bool)
    ensures
        r == has_mat_spec(views(tokens@)),
{
    let exceptions = mat_exceptions_list();
    let roots = mat_roots_list();
    let prefixes = prefixes_list();
    let mut i: usize = 0;
    while i < tokens.len()
        invariant
            i <= tokens.len(),
            exceptions@.map_values(|w: &str| w@) == mat_exceptions(),
            roots@.map_values(|w: &str| w@) == mat_roots(),
            prefixes@.map_values(|w: &str| w@) == crate::words::prefixes(),
            forall|j: int| 0 <= j < i ==> !#[trigger] is_mat_word(views(tokens@)[j]),
        decreases tokens.len() - i,
    {
        let token = chars_of(tokens[i].as_str());
        assert(views(tokens@)[i as int] == token@);
        if is_mat(&token, &exceptions, &roots, &prefixes) {
            return true;
        }
        i = i + 1;
    }
    false
}

/// Tells whether some word starts with one of the stems.
fn any_token_starts_with(tokens: &[String], stems: &Vec<&'static str>, wanted: Ghost<Seq<Seq<char>>>) -> (r: bool)
    requires
        stems@.map_values(|w: &str| w@) == wanted@,
    ensures
        r == any_starts_with(views(tokens@), wanted@),
{
    let mut i: usize = 0;
    while i < tokens.len()
        invariant
            i <= tokens.len(),
            stems@.map_values(|w: &str| w@) == wanted@,
            forall|a: int, b: int| 0 <= a < i && 0 <= b < wanted@.len() ==> !#[trigger] starts_with(views(tokens@)[a], #[trigger] wanted@[b]),
        decreases tokens.len() - i,
    {
        let token = chars_of(tokens[i].as_str());
        assert(views(tokens@)[i as int] == token@);
        if starts_with_any(&token, stems) {
            proof {
                let j = choose|j: int| 0 <= j < stems@.len() && #[trigger] starts_with(token@, stems@[j]@);
                assert(stems@.map_values(|w: &str| w@)[j] == stems@[j]@);
                assert(starts_with(views(tokens@)[i as int], wanted@[j]));
            }
            return true;
        }
        proof {
            assert forall|b: int| 0 <= b < wanted@.len() implies !#[trigger] starts_with(views(tokens@)[i as int], wanted@[b]) by {
                assert(stems@.map_values(|w: &str| w@)[b] == stems@[b]@);
            }
        }
        i = i + 1;
    }
    false
}

/// Some word is one of the given ones.
pub open spec fn has_word(tokens: Seq<Seq<char>>, word: Seq<char>) -> bool {
    exists|i: int| 0 <= i < tokens.len() && tokens[i] == word
}

/// The message apologises: a word starts with an apology, or the text holds
/// the folded hands.
pub open spec fn is_apology_spec(text: Seq<char>, tokens: Seq<Seq<char>>) -> bool {
    any_starts_with(tokens, apology_stems()) || text.contains('🙏')
}

/// Tells whether the message apologises.
pub fn is_apology(text: &str, tokens: &[String]) -> (r: bool)
    ensures
        r == is_apology_spec(text@, views(tokens@)),
{
    let stems = apology_list();
    if any_token_starts_with(tokens, &stems, Ghost(apology_stems())) {
        return true;
    }
    let chars = chars_of(text);
    let mut i: usize = 0;
    while i < chars.len()
        invariant
            i <= chars.len(),
            chars@ == text@,
            forall|j: int| 0 <= j < i ==> chars@[j] != '🙏',
        decreases chars.len() - i,
    {
        if chars[i] == '🙏' {
            assert(text@[i as int] == '🙏');
            return true;
        }
        i = i + 1;
    }
    false
}

/// Tells whether the message talks politics: a word starts with a political
/// stem.
pub fn is_politics(tokens: &[String]) -> (r: bool)
    ensures
        r == any_starts_with(views(tokens@), politics_stems()),
{
    let stems = politics_list();
    any_token_starts_with(tokens, &stems, Ghost(politics_stems()))
}

/// The word is a laugh: two letters or more, all of them letters of a laugh.
pub open spec fn is_laugh(token: Seq<char>) -> bool {
    token.len() >= 2 && forall|i: int| 0 <= i < token.len() ==> laugh_chars().contains(#[trigger] token[i])
}

/// The message is nothing but laughter.
pub open spec fn is_laugh_only_spec(tokens: Seq<Seq<char>>) -> bool {
    tokens.len() > 0 && forall|i: int| 0 <= i < tokens.len() ==> is_laugh(#[trigger] tokens[i])
}

fn laughs(token: &Vec<char>) -> (r: bool)
    ensures
        r == is_laugh(token@),
{
    if token.len() < 2 {
        return false;
    }
    let mut i: usize = 0;
    while i < token.len()
        invariant
            i <= token.len(),
            forall|j: int| 0 <= j < i ==> laugh_chars().contains(#[trigger] token@[j]),
        decreases token.len() - i,
    {
        let c = token[i];
        let ok = c == 'а' || c == 'х' || c == 'п' || c == 'з' || c == 'ж' || c == 'ы';
        proof {
            if ok {
                if c == 'а' { assert(laugh_chars()[0] == c); }
                if c == 'х' { assert(laugh_chars()[1] == c); }
                if c == 'п' { assert(laugh_chars()[2] == c); }
                if c == 'з' { assert(laugh_chars()[3] == c); }
                if c == 'ж' { assert(laugh_chars()[4] == c); }
                if c == 'ы' { assert(laugh_chars()[5] == c); }
            } else {
                assert(!laugh_chars().contains(c));
            }
        }
        if !ok {
            return false;
        }
        i = i + 1;
    }
    true
}

/// Tells whether the message is nothing but laughter.
pub fn is_laugh_only(tokens: &[String]) -> (r: bool)
    ensures
        r == is_laugh_only_spec(views(tokens@)),
{
    if tokens.len() == 0 {
        return false;
    }
    let mut i: usize = 0;
    while i < tokens.len()
        invariant
            i <= tokens.len(),
            forall|j: int| 0 <= j < i ==> is_laugh(#[trigger] views(tokens@)[j]),
        decreases tokens.len() - i,
    {
        let token = chars_of(tokens[i].as_str());
        assert(views(tokens@)[i as int] == token@);
        if !laughs(&token) {
            return false;
        }
        i = i + 1;
    }
    true
}

/// The message calls to play: it says "го" and names a game.
pub open spec fn is_call_to_play_spec(tokens: Seq<Seq<char>>) -> bool {
    has_word(tokens, seq!['г', 'о']) && any_starts_with(tokens, game_stems())
}

/// Tells whether the message calls the chat to play.
pub fn is_call_to_play(tokens: &[String]) -> (r: bool)
    ensures
        r == is_call_to_play_spec(views(tokens@)),
{
    let go = vec!['г', 'о'];
    let mut said = false;
    let mut i: usize = 0;
    while i < tokens.len()
        invariant
            i <= tokens.len(),
            go@ == seq!['г', 'о'],
            said == exists|j: int| 0 <= j < i && views(tokens@)[j] == seq!['г', 'о'],
        decreases tokens.len() - i,
    {
        let token = chars_of(tokens[i].as_str());
        assert(views(tokens@)[i as int] == token@);
        if crate::chars::same_chars(token.as_slice(), go.as_slice()) {
            said = true;
        }
        i = i + 1;
    }
    if !said {
        return false;
    }
    let stems = game_list();
    any_token_starts_with(tokens, &stems, Ghost(game_stems()))
}

/// Tells whether the message mentions the stream.
pub fn mentions_stream(tokens: &[String]) -> (r: bool)
    ensures
        r == any_starts_with(views(tokens@), seq![stream_stem()]),
{
    let stems = vec![crate::sources::STREAM_KEYWORD];
    proof {
        reveal_strlit("стрим");
        assert(stems@.map_values(|w: &str| w@) =~= seq![stream_stem()]);
    }
    let ghost wanted = seq![stream_stem()];
    any_token_starts_with(tokens, &stems, Ghost(wanted))
}

/// Tells whether the message mentions Vinogradov.
pub fn mentions_vinograd(tokens: &[String]) -> (r: bool)
    ensures
        r == any_starts_with(views(tokens@), seq![vinograd_stem()]),
{
    let stems = vec![crate::sources::VINOGRAD_KEYWORD];
    proof {
        reveal_strlit("виноград");
        assert(stems@.map_values(|w: &str| w@) =~= seq![vinograd_stem()]);
    }
    let ghost wanted = seq![vinograd_stem()];
    any_token_starts_with(tokens, &stems, Ghost(wanted))
}

/// No character follows an equal one.
pub open spec fn no_repeat(s: Seq<char>) -> bool {
    forall|i: int| 0 <= i < s.len() - 1 ==> #[trigger] s[i] != s[i + 1]
}

/// Folding the character leaves it as it is.
pub open spec fn fold_fixed(c: char) -> bool {
    fold_char(c) == c
}

/// A word as the tokenizer gives it: not empty, alphanumeric, already
/// folded, and with no character repeated next to itself.
pub open spec fn settled_word(w: Seq<char>) -> bool {
    &&& w.len() > 0
    &&& forall|i: int| 0 <= i < w.len() ==> alphanumeric(#[trigger] w[i]) && fold_fixed(w[i])
    &&& no_repeat(w)
}

proof fn lemma_collapse(s: Seq<char>)
    ensures
        no_repeat(collapse(s)),
        collapse(s).len() <= s.len(),
        s.len() > 0 ==> collapse(s).len() > 0 && collapse(s).last() == s.last(),
        (forall|i: int| 0 <= i < s.len() ==> fold_fixed(#[trigger] s[i]))
            ==> forall|i: int| 0 <= i < collapse(s).len() ==> fold_fixed(#[trigger] collapse(s)[i]),
        no_repeat(s) ==> collapse(s) == s,
    decreases s.len(),
{
    if s.len() > 0 {
        let d = s.drop_last();
        lemma_collapse(d);
        if (forall|i: int| 0 <= i < s.len() ==> fold_fixed(#[trigger] s[i])) {
            assert forall|i: int| 0 <= i < d.len() implies fold_fixed(#[trigger] d[i]) by {
                assert(d[i] == s[i]);
            }
        }
        if no_repeat(s) {
            assert forall|i: int| 0 <= i < d.len() - 1 implies #[trigger] d[i] != d[i + 1] by {
                assert(d[i] == s[i] && d[i + 1] == s[i + 1]);
            }
            if s.len() >= 2 {
                assert(s[s.len() - 2] != s[s.len() - 2 + 1]);
            }
            assert(collapse(s) =~= d.push(s.last()));
            assert(s =~= d.push(s.last()));
        }
        if s.len() >= 2 {
            assert(d.last() == s[s.len() - 2]);
        }
    }
}

/// Words split out of a folded text with no repeated neighbours are settled.
proof fn lemma_split_settled(s: Seq<char>, cur: Seq<char>)
    requires
        no_repeat(s),
        forall|i: int| 0 <= i < s.len() ==> fold_fixed(#[trigger] s[i]),
        cur.len() > 0 ==> settled_word(cur),
        cur.len() > 0 && s.len() > 0 ==> cur.last() != s[0],
    ensures
        forall|i: int| 0 <= i < split_words(s, cur).len() ==> settled_word(#[trigger] split_words(s, cur)[i]),
    decreases s.len(),
{
    if s.len() > 0 {
        let rest = s.drop_first();
        assert forall|i: int| 0 <= i < rest.len() - 1 implies #[trigger] rest[i] != rest[i + 1] by {
            assert(rest[i] == s[i + 1] && rest[i + 1] == s[i + 2]);
        }
        assert forall|i: int| 0 <= i < rest.len() implies fold_fixed(#[trigger] rest[i]) by {
            assert(rest[i] == s[i + 1]);
        }
        if s.len() > 1 {
            assert(s[0] != s[0int + 1]);
        }
        if alphanumeric(s[0]) {
            let next = cur.push(s[0]);
            assert(fold_fixed(s[0]));
            assert forall|i: int| 0 <= i < next.len() - 1 implies #[trigger] next[i] != next[i + 1] by {
                if i < cur.len() - 1 {
                    assert(next[i] == cur[i] && next[i + 1] == cur[i + 1]);
                }
            }
            assert forall|i: int| 0 <= i < next.len() implies alphanumeric(#[trigger] next[i]) && fold_fixed(next[i]) by {
                if i < cur.len() {
                    assert(next[i] == cur[i]);
                }
            }
            assert(settled_word(next));
            lemma_split_settled(rest, next);
            assert(split_words(s, cur) == split_words(rest, next));
        } else {
            lemma_split_settled(rest, seq![]);
            let front: Seq<Seq<char>> = if cur.len() > 0 { seq![cur] } else { seq![] };
            let tail = split_words(rest, seq![]);
            assert(split_words(s, cur) == front + tail);
            assert forall|i: int| 0 <= i < split_words(s, cur).len() implies settled_word(#[trigger] split_words(s, cur)[i]) by {
                if i >= front.len() {
                    assert(split_words(s, cur)[i] == tail[i - front.len()]);
                }
            }
        }
    }
}

/// A word of alphanumeric characters continues the current word.
proof fn lemma_split_word(w: Seq<char>, cur: Seq<char>)
    requires
        forall|i: int| 0 <= i < w.len() ==> alphanumeric(#[trigger] w[i]),
        cur.len() + w.len() > 0,
    ensures
        split_words(w, cur) == seq![cur + w],
    decreases w.len(),
{
    if w.len() == 0 {
        assert(cur + w =~= cur);
    } else {
        let rest = w.drop_first();
        assert forall|i: int| 0 <= i < rest.len() implies alphanumeric(#[trigger] rest[i]) by {
            assert(rest[i] == w[i + 1]);
        }
        assert(alphanumeric(w[0]));
        lemma_split_word(rest, cur.push(w[0]));
        assert(cur.push(w[0]) + rest =~= cur + w);
    }
}

/// A character outside words splits the text in two.
proof fn lemma_split_at(a: Seq<char>, x: char, b: Seq<char>, cur: Seq<char>)
    requires
        !alphanumeric(x),
    ensures
        split_words(a + seq![x] + b, cur) == split_words(a, cur) + split_words(b, seq![]),
    decreases a.len(),
{
    let whole = a + seq![x] + b;
    if a.len() == 0 {
        assert(whole.drop_first() =~= b);
        assert(whole[0] == x);
    } else {
        assert(whole.drop_first() =~= a.drop_first() + seq![x] + b);
        assert(whole[0] == a[0]);
        if alphanumeric(a[0]) {
            lemma_split_at(a.drop_first(), x, b, cur.push(a[0]));
        } else {
            lemma_split_at(a.drop_first(), x, b, seq![]);
            let front: Seq<Seq<char>> = if cur.len() > 0 { seq![cur] } else { seq![] };
            assert(front + split_words(a.drop_first(), seq![]) + split_words(b, seq![])
                =~= front + (split_words(a.drop_first(), seq![]) + split_words(b, seq![])));
        }
    }
}

/// Settled words joined with spaces split back into the same words, and the
/// joined text is folded with no repeated neighbours.
proof fn lemma_joined_words(ws: Seq<Seq<char>>)
    requires
        !alphanumeric(' '),
        forall|i: int| 0 <= i < ws.len() ==> settled_word(#[trigger] ws[i]),
    ensures
        split_words(joined(ws, seq![' ']), seq![]) == ws,
        no_repeat(joined(ws, seq![' '])),
        forall|i: int| 0 <= i < joined(ws, seq![' ']).len() ==> fold_fixed(#[trigger] joined(ws, seq![' '])[i]),
        ws.len() > 0 ==> joined(ws, seq![' ']).len() > 0 && alphanumeric(joined(ws, seq![' ']).last()),
    decreases ws.len(),
{
    let j = joined(ws, seq![' ']);
    if ws.len() == 1 {
        assert(settled_word(ws[0]));
        lemma_split_word(ws[0], seq![]);
        assert(seq![] + ws[0] =~= ws[0]);
        assert(seq![ws[0]] =~= ws);
        assert(alphanumeric(ws[0][ws[0].len() - 1]));
    } else if ws.len() > 1 {
        let d = ws.drop_last();
        let t = ws.last();
        assert forall|i: int| 0 <= i < d.len() implies settled_word(#[trigger] d[i]) by {
            assert(d[i] == ws[i]);
        }
        assert(settled_word(t));
        lemma_joined_words(d);
        let jd = joined(d, seq![' ']);
        assert(j == jd + seq![' '] + t);
        lemma_split_at(jd, ' ', t, seq![]);
        lemma_split_word(t, seq![]);
        assert(seq![] + t =~= t);
        assert(ws =~= d + seq![t]);
        assert(alphanumeric(t[0]));
        assert(alphanumeric(t[t.len() - 1]));
        assert forall|i: int| 0 <= i < j.len() - 1 implies #[trigger] j[i] != j[i + 1] by {
            if i < jd.len() - 1 {
                assert(j[i] == jd[i] && j[i + 1] == jd[i + 1]);
            } else if i == jd.len() - 1 {
                assert(j[i] == jd.last() && j[i + 1] == ' ');
            } else if i == jd.len() {
                assert(j[i] == ' ' && j[i + 1] == t[0]);
            } else {
                let k = i - jd.len() - 1;
                assert(j[i] == t[k] && j[i + 1] == t[k + 1]);
            }
        }
        assert forall|i: int| 0 <= i < j.len() implies fold_fixed(#[trigger] j[i]) by {
            if i < jd.len() {
                assert(j[i] == jd[i]);
            } else if i == jd.len() {
                assert(j[i] == ' ');
            } else {
                assert(j[i] == t[i - jd.len() - 1]);
            }
        }
        assert(j.last() == t[t.len() - 1]);
    } else {
        assert(split_words(j, seq![]) =~= ws);
    }
}

/// Tokenizing the words of a message joined with spaces gives the same
/// words again, given that lowercasing leaves the joined words as they are
/// and that a space is no part of a word.
pub proof fn law_tokens_settle(text: Seq<char>)
    requires
        lowercase(joined(token_seq(text), " "@)) == joined(token_seq(text), " "@),
        !alphanumeric(' '),
    ensures
        token_seq(joined(token_seq(text), " "@)) == token_seq(text),
{
    reveal_strlit(" ");
    assert(" "@ =~= seq![' ']);
    let folded = lowercase(text).map_values(|c: char| fold_char(c));
    assert forall|i: int| 0 <= i < folded.len() implies fold_fixed(#[trigger] folded[i]) by {}
    lemma_collapse(folded);
    let n = normalized(text);
    lemma_split_settled(n, seq![]);
    let ws = token_seq(text);
    lemma_joined_words(ws);
    let j = joined(ws, seq![' ']);
    let refolded = lowercase(j).map_values(|c: char| fold_char(c));
    assert(refolded =~= j);
    lemma_collapse(j);
}

} // verus!
