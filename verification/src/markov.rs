use vstd::prelude::*;

use rand::rngs::StdRng;

use crate::chars::{chars_of, is_white, same_text, string_of, white};
use crate::layout::{join, joined, string_views};
use crate::random::random_index;
use crate::text::views;

verus! {

pub const MAX_WORDS: usize = 25;
pub const MIN_WORDS: usize = 3;
pub const ATTEMPTS: usize = 20;

/// The maximal runs of characters that are not white space, the first one
/// continuing `cur`.
pub open spec fn split_white(s: Seq<char>, cur: Seq<char>) -> Seq<Seq<char>>
    decreases s.len(),
{
    if s.len() == 0 {
        if cur.len() > 0 { seq![cur] } else { seq![] }
    } else if !white(s[0]) {
        split_white(s.drop_first(), cur.push(s[0]))
    } else {
        (if cur.len() > 0 { seq![cur] } else { seq![] }) + split_white(s.drop_first(), seq![])
    }
}

/// The words of a text, as std's `split_whitespace` gives them.
pub open spec fn words_of(s: Seq<char>) -> Seq<Seq<char>> {
    split_white(s, seq![])
}

/// Splits the text into the runs of characters between white space.
pub fn split_whitespace(text: &str) -> (r: Vec<String>)
    ensures
        views(r@) == words_of(text@),
{
    let chars = chars_of(text);
    let ghost whole = chars@;
    let mut words: Vec<String> = Vec::new();
    let mut current: Vec<char> = Vec::new();
    let mut i: usize = 0;
    assert(whole.skip(0) =~= whole);
    while i < chars.len()
        invariant
            i <= chars.len(),
            whole == chars@,
            whole == text@,
            views(words@) + split_white(whole.skip(i as int), current@) == split_white(whole, seq![]),
        decreases chars.len() - i,
    {
        let ghost rest = whole.skip(i as int);
        assert(rest.drop_first() =~= whole.skip(i + 1));
        assert(rest[0] == chars@[i as int]);
        let character = chars[i];
        if !is_white(character) {
            current.push(character);
        } else {
            if current.len() > 0 {
                let word = string_of(&current);
                let ghost before = words@;
                words.push(word);
                assert(views(words@) =~= views(before) + seq![current@]);
            }
            current = Vec::new();
        }
        i = i + 1;
    }
    if current.len() > 0 {
        let word = string_of(&current);
        let ghost before = words@;
        words.push(word);
        assert(views(words@) =~= views(before) + seq![current@]);
    }
    assert(views(words@) =~= split_white(whole, seq![]));
    words
}

/// The first word of every quote that has one, in corpus order.
pub open spec fn starts_of(corpus: Seq<Seq<char>>) -> Seq<Seq<char>>
    decreases corpus.len(),
{
    if corpus.len() == 0 {
        Seq::empty()
    } else {
        let ws = words_of(corpus.last());
        starts_of(corpus.drop_last()) + (if ws.len() > 0 { seq![ws[0]] } else { Seq::empty() })
    }
}

/// Each word of the quote with the word after it, in order.
pub open spec fn pairs_in(ws: Seq<Seq<char>>) -> Seq<(Seq<char>, Seq<char>)> {
    Seq::new((if ws.len() > 0 { ws.len() - 1 } else { 0 }) as nat, |i: int| (ws[i], ws[i + 1]))
}

/// Each word of the corpus with the word after it in the same quote, in
/// corpus order.
pub open spec fn bigrams(corpus: Seq<Seq<char>>) -> Seq<(Seq<char>, Seq<char>)>
    decreases corpus.len(),
{
    if corpus.len() == 0 {
        Seq::empty()
    } else {
        bigrams(corpus.drop_last()) + pairs_in(words_of(corpus.last()))
    }
}

/// The words that follow `w` in the corpus, in corpus order.
pub open spec fn followers(pairs: Seq<(Seq<char>, Seq<char>)>, w: Seq<char>) -> Seq<Seq<char>> {
    pairs.filter(|p: (Seq<char>, Seq<char>)| p.0 == w).map_values(|p: (Seq<char>, Seq<char>)| p.1)
}

pub open spec fn pair_views(v: Seq<(String, String)>) -> Seq<(Seq<char>, Seq<char>)> {
    v.map_values(|p: (String, String)| (p.0@, p.1@))
}

pub open spec fn chain_keys(c: Seq<(String, Vec<String>)>) -> Seq<Seq<char>> {
    c.map_values(|e: (String, Vec<String>)| e.0@)
}

/// `chain` lists, each once, every word that has a follower in the corpus,
/// with its followers in corpus order.
pub open spec fn is_chain(corpus: Seq<Seq<char>>, chain: Seq<(String, Vec<String>)>) -> bool {
    &&& chain_keys(chain).no_duplicates()
    &&& forall|i: int| 0 <= i < chain.len() ==> views((#[trigger] chain[i]).1@) == followers(bigrams(corpus), chain[i].0@)
    &&& forall|w: Seq<char>| followers(bigrams(corpus), w).len() > 0 ==> #[trigger] chain_keys(chain).contains(w)
}

/// Returns every pair of neighbouring words of the corpus, in order.
fn bigrams_of(corpus: &Vec<String>) -> (r: Vec<(String, String)>)
    ensures
        pair_views(r@) == bigrams(views(corpus@)),
{
    let mut r: Vec<(String, String)> = Vec::new();
    let mut i: usize = 0;
    while i < corpus.len()
        invariant
            i <= corpus@.len(),
            pair_views(r@) == bigrams(views(corpus@.take(i as int))),
        decreases corpus@.len() - i,
    {
        let words = split_whitespace(corpus[i].as_str());
        let ghost ws = views(words@);
        let ghost start = r@;
        let last: usize = if words.len() > 0 { words.len() - 1 } else { 0 };
        let mut k: usize = 0;
        while k < last
            invariant
                k <= last,
                last == (if words@.len() > 0 { words@.len() - 1 } else { 0 }),
                ws == views(words@),
                pair_views(r@) == pair_views(start) + pairs_in(ws).take(k as int),
            decreases words@.len() - k,
        {
            let ghost before = r@;
            r.push((words[k].clone(), words[k + 1].clone()));
            proof {
                assert(pairs_in(ws)[k as int] == (ws[k as int], ws[k + 1]));
                assert(pairs_in(ws).take(k + 1) =~= pairs_in(ws).take(k as int).push(pairs_in(ws)[k as int]));
                assert(pair_views(r@) =~= pair_views(before).push((words@[k as int]@, words@[k + 1]@)));
            }
            k = k + 1;
        }
        proof {
            assert(pairs_in(ws).take(k as int) =~= pairs_in(ws));
            let now = views(corpus@.take(i + 1));
            assert(now.drop_last() =~= views(corpus@.take(i as int)));
            assert(now.last() == corpus@[i as int]@);
            assert(words_of(corpus@[i as int]@) == ws);
        }
        i = i + 1;
    }
    assert(corpus@.take(i as int) =~= corpus@);
    r
}

/// Returns the words that follow `w`, in corpus order.
fn followers_of(pairs: &Vec<(String, String)>, w: &str) -> (r: Vec<String>)
    ensures
        views(r@) == followers(pair_views(pairs@), w@),
{
    let ghost f = |p: (Seq<char>, Seq<char>)| p.0 == w@;
    let ghost g = |p: (Seq<char>, Seq<char>)| p.1;
    let ghost all = pair_views(pairs@);
    let mut r: Vec<String> = Vec::new();
    let mut i: usize = 0;
    while i < pairs.len()
        invariant
            i <= pairs@.len(),
            all == pair_views(pairs@),
            f == (|p: (Seq<char>, Seq<char>)| p.0 == w@),
            g == (|p: (Seq<char>, Seq<char>)| p.1),
            views(r@) == all.take(i as int).filter(f).map_values(g),
        decreases pairs@.len() - i,
    {
        let ghost before = r@;
        if same_text(pairs[i].0.as_str(), w) {
            r.push(pairs[i].1.clone());
        }
        proof {
            let prev = all.take(i as int).filter(f);
            assert(all.take(i + 1).drop_last() =~= all.take(i as int));
            assert(all.take(i + 1).last() == all[i as int]);
            assert(all.take(i + 1).filter(f) == if f(all[i as int]) { prev.push(all[i as int]) } else { prev }) by {
                reveal_with_fuel(Seq::filter, 1);
            }
            if f(all[i as int]) {
                assert(prev.push(all[i as int]).map_values(g) =~= prev.map_values(g).push(g(all[i as int])));
                assert(views(r@) =~= views(before).push(pairs@[i as int].1@));
            }
        }
        i = i + 1;
    }
    assert(all.take(i as int) =~= all);
    r
}

/// Tells whether the word is among the keys of the chain.
fn chain_position(chain: &Vec<(String, Vec<String>)>, w: &str) -> (r: Option<usize>)
    ensures
        r matches Some(p) ==> p < chain@.len() && chain@[p as int].0@ == w@,
        r is None ==> !chain_keys(chain@).contains(w@),
{
    let mut i: usize = 0;
    while i < chain.len()
        invariant
            i <= chain@.len(),
            forall|j: int| 0 <= j < i ==> chain@[j].0@ != w@,
        decreases chain@.len() - i,
    {
        if same_text(chain[i].0.as_str(), w) {
            return Some(i);
        }
        i = i + 1;
    }
    proof {
        assert forall|j: int| 0 <= j < chain_keys(chain@).len() implies chain_keys(chain@)[j] != w@ by {
            assert(chain_keys(chain@)[j] == chain@[j].0@);
        }
    }
    None
}

/// Returns, for every word of the corpus that has a follower, the words
/// that follow it, in corpus order.
pub fn chain_of(corpus: &Vec<String>) -> (r: Vec<(String, Vec<String>)>)
    ensures
        is_chain(views(corpus@), r@),
{
    let pairs = bigrams_of(corpus);
    let ghost all = pair_views(pairs@);
    let mut chain: Vec<(String, Vec<String>)> = Vec::new();
    let mut i: usize = 0;
    while i < pairs.len()
        invariant
            i <= pairs@.len(),
            all == pair_views(pairs@),
            all == bigrams(views(corpus@)),
            chain_keys(chain@).no_duplicates(),
            forall|k: int| 0 <= k < chain@.len() ==> views((#[trigger] chain@[k]).1@) == followers(all, chain@[k].0@),
            forall|j: int| 0 <= j < i ==> chain_keys(chain@).contains(#[trigger] all[j].0),
        decreases pairs@.len() - i,
    {
        let key = &pairs[i].0;
        let ghost before = chain@;
        match chain_position(&chain, key.as_str()) {
            Some(p) => {
                assert(chain_keys(chain@)[p as int] == all[i as int].0);
            },
            None => {
                let list = followers_of(&pairs, key.as_str());
                chain.push((key.clone(), list));
                proof {
                    assert(chain_keys(chain@) =~= chain_keys(before).push(all[i as int].0));
                    assert forall|a: int, b: int| 0 <= a < chain_keys(chain@).len() && 0 <= b < chain_keys(chain@).len() && a != b
                        implies chain_keys(chain@)[a] != chain_keys(chain@)[b] by {
                        if a < before.len() && b < before.len() {
                            assert(chain_keys(before)[a] != chain_keys(before)[b]);
                        } else if a < before.len() {
                            assert(chain_keys(before)[a] == chain_keys(chain@)[a]);
                        } else {
                            assert(chain_keys(before)[b] == chain_keys(chain@)[b]);
                        }
                    }
                    assert forall|k: int| 0 <= k < chain@.len() implies views((#[trigger] chain@[k]).1@) == followers(all, chain@[k].0@) by {
                        if k < before.len() {
                            assert(chain@[k] == before[k]);
                        }
                    }
                    assert forall|j: int| 0 <= j < i + 1 implies chain_keys(chain@).contains(#[trigger] all[j].0) by {
                        if j < i {
                            let k = choose|k: int| 0 <= k < chain_keys(before).len() && chain_keys(before)[k] == all[j].0;
                            assert(chain_keys(chain@)[k] == all[j].0);
                        } else {
                            assert(chain_keys(chain@)[before.len() as int] == all[j].0);
                        }
                    }
                }
            },
        }
        i = i + 1;
    }
    proof {
        assert forall|w: Seq<char>| followers(bigrams(views(corpus@)), w).len() > 0 implies #[trigger] chain_keys(chain@).contains(w) by {
            let f = |p: (Seq<char>, Seq<char>)| p.0 == w;
            let kept = all.filter(f);
            assert(kept.len() > 0);
            assert(kept.contains(kept[0]));
            all.lemma_filter_contains_rev(f, kept[0]);
            broadcast use vstd::seq_lib::group_filter_ensures;
            let j = choose|j: int| 0 <= j < all.len() && all[j] == kept[0];
            assert(f(kept[0]));
        }
    }
    chain
}

/// The phrase walks the chain: it starts on a start word, each next word
/// follows the one before it somewhere in the corpus, and it is no longer
/// than the cap.
pub open spec fn walks(corpus: Seq<Seq<char>>, ws: Seq<Seq<char>>) -> bool {
    &&& 1 <= ws.len() <= MAX_WORDS
    &&& starts_of(corpus).contains(ws[0])
    &&& forall|i: int| 0 <= i < ws.len() - 1 ==> followers(bigrams(corpus), ws[i]).contains(#[trigger] ws[i + 1])
}

/// A walk as the generator ends it: at the cap, or on a word that nothing
/// follows in the corpus.
pub open spec fn full_walk(corpus: Seq<Seq<char>>, ws: Seq<Seq<char>>) -> bool {
    &&& walks(corpus, ws)
    &&& (ws.len() == MAX_WORDS || followers(bigrams(corpus), ws.last()).len() == 0)
}

/// The phrase is kept: three words or more, and no quote word for word.
pub open spec fn keeps(corpus: Seq<Seq<char>>, phrase: Seq<char>) -> bool {
    &&& words_of(phrase).len() >= MIN_WORDS
    &&& !corpus.contains(phrase)
}

/// Every walk the generator can make gives a phrase it keeps, so the first
/// attempt already succeeds, whatever the draws.
pub open spec fn every_walk_kept(corpus: Seq<Seq<char>>) -> bool {
    forall|ws: Seq<Seq<char>>| #[trigger] full_walk(corpus, ws) ==> keeps(corpus, joined(ws, " "@))
}

/// Returns the first word of every quote that has one, in corpus order.
fn starts_from(corpus: &Vec<String>) -> (r: Vec<String>)
    ensures
        views(r@) == starts_of(views(corpus@)),
{
    let mut r: Vec<String> = Vec::new();
    let mut i: usize = 0;
    while i < corpus.len()
        invariant
            i <= corpus@.len(),
            views(r@) == starts_of(views(corpus@.take(i as int))),
        decreases corpus@.len() - i,
    {
        let words = split_whitespace(corpus[i].as_str());
        let ghost before = r@;
        if words.len() > 0 {
            r.push(words[0].clone());
        }
        proof {
            let now = views(corpus@.take(i + 1));
            assert(now.drop_last() =~= views(corpus@.take(i as int)));
            assert(now.last() == corpus@[i as int]@);
            if words@.len() > 0 {
                assert(views(r@) =~= views(before) + seq![words@[0]@]);
            } else {
                assert(views(r@) =~= views(before) + Seq::<Seq<char>>::empty());
            }
        }
        i = i + 1;
    }
    assert(corpus@.take(i as int) =~= corpus@);
    r
}

/// Walks the chain from a random start word, each next word drawn at random
/// among the followers of the one before, until the cap or a word nothing
/// follows.
fn walk(starts: &Vec<String>, chain: &Vec<(String, Vec<String>)>, rng: &mut StdRng, corpus: Ghost<Seq<Seq<char>>>) -> (r: String)
    requires
        starts@.len() > 0,
        views(starts@) == starts_of(corpus@),
        is_chain(corpus@, chain@),
    ensures
        exists|ws: Seq<Seq<char>>| #[trigger] full_walk(corpus@, ws) && r@ == joined(ws, " "@),
{
    let first = random_index(rng, starts.len());
    let mut word = starts[first].clone();
    let mut phrase: Vec<String> = vec![word.clone()];
    proof {
        assert(views(starts@)[first as int] == word@);
        assert(starts_of(corpus@).contains(word@));
        assert(views(phrase@)[0] == word@);
    }
    let mut stuck = false;
    while phrase.len() < MAX_WORDS && !stuck
        invariant
            1 <= phrase@.len() <= MAX_WORDS,
            is_chain(corpus@, chain@),
            walks(corpus@, views(phrase@)),
            views(phrase@).last() == word@,
            stuck ==> followers(bigrams(corpus@), word@).len() == 0,
        decreases MAX_WORDS - phrase@.len() + (if stuck { 0int } else { 1int }),
    {
        match chain_position(chain, word.as_str()) {
            None => {
                stuck = true;
            },
            Some(p) => {
                let options = &chain[p].1;
                if options.len() == 0 {
                    stuck = true;
                } else {
                    let pick = random_index(rng, options.len());
                    let next = options[pick].clone();
                    let ghost before = views(phrase@);
                    proof {
                        assert(views(options@)[pick as int] == next@);
                        assert(followers(bigrams(corpus@), word@).contains(next@));
                    }
                    word = next;
                    phrase.push(word.clone());
                    proof {
                        assert(views(phrase@) =~= before.push(word@));
                        assert forall|i: int| 0 <= i < views(phrase@).len() - 1 implies followers(bigrams(corpus@), views(phrase@)[i]).contains(#[trigger] views(phrase@)[i + 1]) by {
                            if i < before.len() - 1 {
                                assert(views(phrase@)[i] == before[i] && views(phrase@)[i + 1] == before[i + 1]);
                            }
                        }
                    }
                }
            },
        }
    }
    let r = join(&phrase, " ");
    assert(full_walk(corpus@, string_views(phrase@)) && r@ == joined(string_views(phrase@), " "@)) by {
        assert(string_views(phrase@) =~= views(phrase@));
    }
    r
}

/// Tells whether the text is one of the quotes, word for word.
fn is_quote(corpus: &Vec<String>, text: &str) -> (r: bool)
    ensures
        r == views(corpus@).contains(text@),
{
    let mut i: usize = 0;
    while i < corpus.len()
        invariant
            i <= corpus@.len(),
            forall|j: int| 0 <= j < i ==> corpus@[j]@ != text@,
        decreases corpus@.len() - i,
    {
        if same_text(corpus[i].as_str(), text) {
            assert(views(corpus@)[i as int] == text@);
            return true;
        }
        i = i + 1;
    }
    proof {
        assert forall|j: int| 0 <= j < views(corpus@).len() implies views(corpus@)[j] != text@ by {
            assert(views(corpus@)[j] == corpus@[j]@);
        }
    }
    false
}

/// The phrase could come out of the generator for the corpus: three words
/// or more, no quote word for word, and a walk of the chain joined with
/// spaces.
pub open spec fn joined_walk(corpus: Seq<Seq<char>>, phrase: Seq<char>) -> bool {
    &&& keeps(corpus, phrase)
    &&& exists|ws: Seq<Seq<char>>| #[trigger] full_walk(corpus, ws) && phrase == joined(ws, " "@)
}

/// Builds a phrase nobody said out of the words of the given quotes.
///
/// Returns nothing when no quote has a word, and when twenty walks in a row
/// came out shorter than three words or word for word an existing quote.
/// Which walks come out is chance; where every walk the corpus allows gives
/// a phrase that is kept, a phrase comes out.
pub fn generate(corpus: &Vec<String>, rng: &mut StdRng) -> (r: Option<String>)
    ensures
        starts_of(views(corpus@)).len() == 0 ==> r is None,
        r matches Some(phrase) ==> joined_walk(views(corpus@), phrase@),
        starts_of(views(corpus@)).len() > 0 && every_walk_kept(views(corpus@)) ==> r is Some,
{
    let starts = starts_from(corpus);
    if starts.len() == 0 {
        return None;
    }
    let chain = chain_of(corpus);
    let mut attempt: usize = 0;
    while attempt < ATTEMPTS
        invariant
            attempt <= ATTEMPTS,
            starts@.len() > 0,
            views(starts@) == starts_of(views(corpus@)),
            is_chain(views(corpus@), chain@),
            attempt > 0 ==> !every_walk_kept(views(corpus@)),
        decreases ATTEMPTS - attempt,
    {
        let phrase = walk(&starts, &chain, rng, Ghost(views(corpus@)));
        let words = split_whitespace(phrase.as_str());
        if words.len() >= MIN_WORDS && !is_quote(corpus, phrase.as_str()) {
            return Some(phrase);
        }
        proof {
            let ws = choose|ws: Seq<Seq<char>>| #[trigger] full_walk(views(corpus@), ws) && phrase@ == joined(ws, " "@);
            if every_walk_kept(views(corpus@)) {
                assert(keeps(views(corpus@), joined(ws, " "@)));
            }
        }
        attempt = attempt + 1;
    }
    None
}

} // verus!
