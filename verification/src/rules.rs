use vstd::prelude::*;

use crate::chars::{chars_of, contains_seq, has_prefix, same_text, starts_with};
use crate::html::decimal;
use crate::table::{as_map, distinct_keys, lemma_lookup_absent, lemma_lookup_at, lemma_lookup_present, lemma_lookup_push, lemma_lookup_update, lookup, lemma_push_distinct};

verus! {

pub const TERPIM_STREAK: i64 = 10;
pub const OPRAVDAN_APOLOGIES: i64 = 3;
pub const CHAIN_LENGTH: i64 = 20;
pub const SHORTY_CHARS: i64 = 1000;
pub const POTOLOK_NIGHTS: i64 = 500;
pub const BELOGVARDEEC_POLITICS: i64 = 100;
pub const VPN_IGNORED: i64 = 20;
pub const GAVNIL_REPLIES: i64 = 100;
pub const LYSINA_MENTIONS: i64 = 50;
pub const STREAM_MENTIONS: i64 = 50;
pub const HAHA_LAUGHS: i64 = 100;
pub const ROBOT_REPLIES: i64 = 100;
pub const CALLS_IGNORED: i64 = 10;
pub const KLON_MONOLOGUES: i64 = 20;
pub const IVANCHUK_MENTIONS: i64 = 50;
pub const SOFIZM_MESSAGES: i64 = 50;
pub const PETUKH_ACHIEVEMENTS: usize = 5;

/// Named counters of one member (or of one chat): every key maps to its value,
/// a missing key reads as zero.
pub struct Stats {
    entries: Vec<(String, i64)>,
}

/// The pairs of a list of named counters, by the characters of the names.
pub open spec fn counter_pairs(s: Seq<(String, i64)>) -> Seq<(Seq<char>, i64)> {
    s.map_values(|e: (String, i64)| (e.0@, e.1))
}

impl View for Stats {
    type V = Map<Seq<char>, i64>;

    closed spec fn view(&self) -> Map<Seq<char>, i64> {
        as_map(counter_pairs(self.entries@))
    }
}

/// The value of a counter, zero when it was never set.
pub open spec fn counter(m: Map<Seq<char>, i64>, key: Seq<char>) -> i64 {
    if m.contains_key(key) { m[key] } else { 0 }
}

/// The largest counter whose name starts with `prefix`, zero when there is
/// none.
pub open spec fn max_prefixed(m: Map<Seq<char>, i64>, prefix: Seq<char>) -> i64 {
    if has_prefixed(m, prefix) {
        choose|v: i64| is_prefixed_max(m, prefix, v)
    } else {
        0
    }
}

/// `v` is the value of a counter named with `prefix`, and no such counter is
/// larger.
pub open spec fn is_prefixed_max(m: Map<Seq<char>, i64>, prefix: Seq<char>, v: i64) -> bool {
    &&& exists|k: Seq<char>| #[trigger] m.contains_key(k) && starts_with(k, prefix) && m[k] == v
    &&& forall|k: Seq<char>| #[trigger] m.contains_key(k) && starts_with(k, prefix) ==> m[k] <= v
}

/// Some counter whose name starts with `prefix` exists.
pub open spec fn has_prefixed(m: Map<Seq<char>, i64>, prefix: Seq<char>) -> bool {
    exists|k: Seq<char>| #[trigger] m.contains_key(k) && starts_with(k, prefix)
}

impl Stats {
    #[verifier::type_invariant]
    closed spec fn distinct(self) -> bool {
        distinct_keys(counter_pairs(self.entries@))
    }

    /// The counters given, a later pair overriding an earlier one with the
    /// same name.
    pub fn new(values: Vec<(String, i64)>) -> (r: Self)
        ensures
            r@ == as_map(counter_pairs(values@)),
    {
        let mut entries: Vec<(String, i64)> = Vec::new();
        let mut i: usize = 0;
        while i < values.len()
            invariant
                i <= values.len(),
                distinct_keys(counter_pairs(entries@)),
                forall|k: Seq<char>| lookup(counter_pairs(entries@), k) == lookup(counter_pairs(values@.take(i as int)), k),
            decreases values.len() - i,
        {
            let key = values[i].0.clone();
            let value = values[i].1;
            let ghost before = entries@;
            let found = find_entry(&entries, key.as_str());
            assert(counter_pairs(values@.take(i + 1)) =~= counter_pairs(values@.take(i as int)).push((key@, value)));
            match found {
                Some(at) => {
                    entries.set(at, (key, value));
                    proof {
                        assert(counter_pairs(entries@) =~= counter_pairs(before).update(at as int, (counter_pairs(before)[at as int].0, value)));
                        assert forall|k: Seq<char>| lookup(counter_pairs(entries@), k) == lookup(counter_pairs(values@.take(i + 1)), k) by {
                            lemma_lookup_update(counter_pairs(before), at as int, value, k);
                            lemma_lookup_push(counter_pairs(values@.take(i as int)), (key@, value), k);
                        }
                        lemma_lookup_update(counter_pairs(before), at as int, value, key@);
                    }
                },
                None => {
                    entries.push((key, value));
                    proof {
                        assert(counter_pairs(entries@) =~= counter_pairs(before).push((key@, value)));
                        lemma_push_distinct(counter_pairs(before), (key@, value));
                        assert forall|k: Seq<char>| lookup(counter_pairs(entries@), k) == lookup(counter_pairs(values@.take(i + 1)), k) by {
                            lemma_lookup_push(counter_pairs(before), (key@, value), k);
                            lemma_lookup_push(counter_pairs(values@.take(i as int)), (key@, value), k);
                        }
                    }
                },
            }
            i = i + 1;
        }
        assert(values@.take(values.len() as int) =~= values@);
        let r = Stats { entries };
        assert(r@ =~= as_map(counter_pairs(values@)));
        r
    }

    /// The value of the named counter, zero when it was never set.
    pub fn get(&self, key: &str) -> (r: i64)
        ensures
            r == counter(self@, key@),
    {
        proof {
            use_type_invariant(self);
        }
        match find_entry(&self.entries, key) {
            Some(at) => {
                proof {
                    lemma_lookup_at(counter_pairs(self.entries@), at as int);
                }
                self.entries[at].1
            },
            None => 0,
        }
    }

    /// The value of the named counter, when it was ever set.
    pub fn find(&self, key: &str) -> (r: Option<i64>)
        ensures
            r == (if self@.contains_key(key@) { Some(self@[key@]) } else { None::<i64> }),
    {
        proof {
            use_type_invariant(self);
        }
        match find_entry(&self.entries, key) {
            Some(at) => {
                proof {
                    lemma_lookup_at(counter_pairs(self.entries@), at as int);
                }
                Some(self.entries[at].1)
            },
            None => None,
        }
    }

    /// The names of every counter that was ever set.
    pub fn keys(&self) -> (r: Vec<String>)
        ensures
            r@.len() == self@.dom().len(),
            forall|k: Seq<char>| self@.contains_key(k) <==> exists|i: int| 0 <= i < r@.len() && #[trigger] r@[i]@ == k,
    {
        proof {
            use_type_invariant(self);
        }
        let mut r: Vec<String> = Vec::new();
        let mut i: usize = 0;
        while i < self.entries.len()
            invariant
                i <= self.entries.len(),
                distinct_keys(counter_pairs(self.entries@)),
                r@.len() == i,
                forall|j: int| 0 <= j < i ==> #[trigger] r@[j]@ == self.entries@[j].0@,
            decreases self.entries.len() - i,
        {
            r.push(self.entries[i].0.clone());
            i = i + 1;
        }
        let ghost pairs = counter_pairs(self.entries@);
        proof {
            assert forall|k: Seq<char>| self@.contains_key(k) <==> exists|i: int| 0 <= i < r@.len() && #[trigger] r@[i]@ == k by {
                if self@.contains_key(k) {
                    lemma_lookup_present(pairs, k);
                    let j = choose|j: int| 0 <= j < pairs.len() && #[trigger] pairs[j].0 == k && pairs[j].1 == lookup(pairs, k)->0;
                    assert(r@[j]@ == k);
                }
                if exists|i: int| 0 <= i < r@.len() && #[trigger] r@[i]@ == k {
                    let j = choose|j: int| 0 <= j < r@.len() && #[trigger] r@[j]@ == k;
                    lemma_lookup_at(pairs, j);
                    assert(pairs[j].0 == k);
                }
            }
            lemma_keys_len(pairs);
        }
        r
    }

    /// The largest counter whose name starts with `prefix`, zero when there
    /// is none.
    pub fn max_with_prefix(&self, prefix: &str) -> (r: i64)
        ensures
            r == max_prefixed(self@, prefix@),
            !has_prefixed(self@, prefix@) ==> r == 0,
            has_prefixed(self@, prefix@) ==> is_prefixed_max(self@, prefix@, r),
    {
        proof {
            use_type_invariant(self);
        }
        let ghost pairs = counter_pairs(self.entries@);
        let head = chars_of(prefix);
        let mut best: Option<i64> = None;
        let mut i: usize = 0;
        while i < self.entries.len()
            invariant
                i <= self.entries.len(),
                pairs == counter_pairs(self.entries@),
                distinct_keys(pairs),
                head@ == prefix@,
                best is None ==> forall|j: int| 0 <= j < i ==> !starts_with(#[trigger] pairs[j].0, prefix@),
                best matches Some(b) ==> {
                    &&& exists|j: int| 0 <= j < i && starts_with(#[trigger] pairs[j].0, prefix@) && pairs[j].1 == b
                    &&& forall|j: int| 0 <= j < i && starts_with(#[trigger] pairs[j].0, prefix@) ==> pairs[j].1 <= b
                },
            decreases self.entries.len() - i,
        {
            let name = chars_of(self.entries[i].0.as_str());
            assert(pairs[i as int].0 == name@);
            if has_prefix(name.as_slice(), head.as_slice()) {
                let value = self.entries[i].1;
                best = match best {
                    None => Some(value),
                    Some(b) => if value > b { Some(value) } else { Some(b) },
                };
            }
            i = i + 1;
        }
        proof {
            if has_prefixed(self@, prefix@) {
                let k = choose|k: Seq<char>| #[trigger] self@.contains_key(k) && starts_with(k, prefix@);
                lemma_lookup_present(pairs, k);
                let j = choose|j: int| 0 <= j < pairs.len() && #[trigger] pairs[j].0 == k && pairs[j].1 == lookup(pairs, k)->0;
                assert(starts_with(pairs[j].0, prefix@));
                let b = best->0;
                let w = choose|w: int| 0 <= w < i && starts_with(#[trigger] pairs[w].0, prefix@) && pairs[w].1 == b;
                lemma_lookup_at(pairs, w);
                assert(self@.contains_key(pairs[w].0));
                assert forall|k2: Seq<char>| #[trigger] self@.contains_key(k2) && starts_with(k2, prefix@) implies self@[k2] <= b by {
                    lemma_lookup_present(pairs, k2);
                    let j2 = choose|j2: int| 0 <= j2 < pairs.len() && #[trigger] pairs[j2].0 == k2 && pairs[j2].1 == lookup(pairs, k2)->0;
                    assert(starts_with(pairs[j2].0, prefix@));
                }
                assert(is_prefixed_max(self@, prefix@, b));
                let c = choose|v: i64| is_prefixed_max(self@, prefix@, v);
                let kc = choose|k: Seq<char>| #[trigger] self@.contains_key(k) && starts_with(k, prefix@) && self@[k] == c;
                let kb = choose|k: Seq<char>| #[trigger] self@.contains_key(k) && starts_with(k, prefix@) && self@[k] == b;
                assert(c <= b && b <= c);
            } else {
                if best is Some {
                    let b = best->0;
                    let w = choose|w: int| 0 <= w < i && starts_with(#[trigger] pairs[w].0, prefix@) && pairs[w].1 == b;
                    lemma_lookup_at(pairs, w);
                    assert(self@.contains_key(pairs[w].0));
                }
            }
        }
        match best {
            Some(b) => b,
            None => 0,
        }
    }
}

proof fn lemma_keys_len(s: Seq<(Seq<char>, i64)>)
    requires
        distinct_keys(s),
    ensures
        as_map(s).dom().len() == s.len(),
        as_map(s).dom().finite(),
    decreases s.len(),
{
    if s.len() == 0 {
        assert(as_map(s).dom() =~= Set::<Seq<char>>::empty());
    } else {
        let t = s.drop_last();
        assert(distinct_keys(t));
        lemma_keys_len(t);
        assert forall|k: Seq<char>| lookup(s, k) == lookup(t.push(s.last()), k) by {
            assert(t.push(s.last()) =~= s);
        }
        assert(as_map(s).dom() =~= as_map(t).dom().insert(s.last().0)) by {
            assert forall|k: Seq<char>| as_map(s).dom().contains(k) <==> as_map(t).dom().insert(s.last().0).contains(k) by {
                lemma_lookup_push(t, s.last(), k);
            }
        }
        if as_map(t).dom().contains(s.last().0) {
            lemma_lookup_present(t, s.last().0);
            let j = choose|j: int| 0 <= j < t.len() && #[trigger] t[j].0 == s.last().0 && t[j].1 == lookup(t, s.last().0)->0;
            assert(s[j].0 == s[s.len() - 1].0);
        }
    }
}

/// Finds the position of the named counter.
fn find_entry(entries: &Vec<(String, i64)>, key: &str) -> (r: Option<usize>)
    ensures
        r matches Some(at) ==> at < entries@.len() && entries@[at as int].0@ == key@,
        r is None ==> lookup(counter_pairs(entries@), key@) is None,
{
    let mut i: usize = 0;
    while i < entries.len()
        invariant
            i <= entries.len(),
            forall|j: int| 0 <= j < i ==> #[trigger] entries@[j].0@ != key@,
        decreases entries.len() - i,
    {
        if same_text(entries[i].0.as_str(), key) {
            return Some(i);
        }
        i = i + 1;
    }
    proof {
        let pairs = counter_pairs(entries@);
        assert forall|j: int| 0 <= j < pairs.len() implies #[trigger] pairs[j].0 != key@ by {
            assert(pairs[j].0 == entries@[j].0@);
        }
        lemma_lookup_absent(pairs, key@);
    }
    None
}


/// One of the seventeen achievements a member can collect.
#[derive(Debug, Clone, Copy, PartialEq, Eq, Structural, Hash)]
pub enum Achievement {
    Terpim,
    Opravdan,
    OdinNaOdin,
    Shorty,
    Potolok,
    Belogvardeec,
    Vpn,
    Gavnil,
    Lysina,
    SsalStream,
    Haha,
    Robot,
    VseZanyaty,
    Klon,
    Ivanchuk,
    Sofizm,
    Petukh,
}

/// Every achievement, in the order the catalogue lists them.
#[verifier::opaque]
pub open spec fn all_achievements() -> Seq<Achievement> {
    seq![
        Achievement::Terpim,
        Achievement::Opravdan,
        Achievement::OdinNaOdin,
        Achievement::Shorty,
        Achievement::Potolok,
        Achievement::Belogvardeec,
        Achievement::Vpn,
        Achievement::Gavnil,
        Achievement::Lysina,
        Achievement::SsalStream,
        Achievement::Haha,
        Achievement::Robot,
        Achievement::VseZanyaty,
        Achievement::Klon,
        Achievement::Ivanchuk,
        Achievement::Sofizm,
        Achievement::Petukh,
    ]
}

impl Achievement {
    /// The code the achievement is stored under.
    pub open spec fn code_spec(self) -> Seq<char> {
        match self {
            Achievement::Terpim => "terpim"@,
            Achievement::Opravdan => "opravdan"@,
            Achievement::OdinNaOdin => "odin_na_odin"@,
            Achievement::Shorty => "shorty"@,
            Achievement::Potolok => "potolok"@,
            Achievement::Belogvardeec => "belogvardeec"@,
            Achievement::Vpn => "vpn"@,
            Achievement::Gavnil => "gavnil"@,
            Achievement::Lysina => "lysina"@,
            Achievement::SsalStream => "ssal_stream"@,
            Achievement::Haha => "haha"@,
            Achievement::Robot => "robot"@,
            Achievement::VseZanyaty => "vse_zanyaty"@,
            Achievement::Klon => "klon"@,
            Achievement::Ivanchuk => "ivanchuk"@,
            Achievement::Sofizm => "sofizm"@,
            Achievement::Petukh => "petukh"@,
        }
    }

    /// The title the achievement is announced with.
    pub open spec fn title_spec(self) -> Seq<char> {
        match self {
            Achievement::Terpim => "Терпим"@,
            Achievement::Opravdan => "Оправдан в зале суда"@,
            Achievement::OdinNaOdin => "1х1 5 раундов по полчаса"@,
            Achievement::Shorty => "В этот день я и порвал эти шорты"@,
            Achievement::Potolok => "9500 потолок"@,
            Achievement::Belogvardeec => "Я белогвардеец"@,
            Achievement::Vpn => "Мне впн дороже"@,
            Achievement::Gavnil => "Я гавнил гавнодавов"@,
            Achievement::Lysina => "Сверкающая лысина"@,
            Achievement::SsalStream => "Я ссал стрим на голову"@,
            Achievement::Haha => "ХААХХААХАХАХАХАХ"@,
            Achievement::Robot => "Робот ебаный"@,
            Achievement::VseZanyaty => "К сожалению все заняты"@,
            Achievement::Klon => "Клонировать себя, чтоб в 5 в доту"@,
            Achievement::Ivanchuk => "Иванчук, обработать"@,
            Achievement::Sofizm => "Ну понятно, софизм"@,
            Achievement::Petukh => "Петух в законе"@,
        }
    }

    /// What it takes to earn the achievement.
    pub open spec fn hint_spec(self) -> Seq<char> {
        match self {
            Achievement::Terpim => "10 своих сообщений подряд, на которые никто не ответил"@,
            Achievement::Opravdan => "3 раза выматериться и извиниться в течение минуты"@,
            Achievement::OdinNaOdin => "20 реплаев подряд с одним человеком за полчаса"@,
            Achievement::Shorty => "сообщение длиннее 1000 символов"@,
            Achievement::Potolok => "500 сообщений с 02:00 до 06:00"@,
            Achievement::Belogvardeec => "100 сообщений про политику"@,
            Achievement::Vpn => "20 раз промолчать час после того, как тебя позвали"@,
            Achievement::Gavnil => "100 раз получить цитату от бота"@,
            Achievement::Lysina => "50 упоминаний Виноградова"@,
            Achievement::SsalStream => "50 упоминаний стрима"@,
            Achievement::Haha => "100 сообщений из одного ржача"@,
            Achievement::Robot => "100 ответов боту"@,
            Achievement::VseZanyaty => "10 раз позвать в игру и получить тишину"@,
            Achievement::Klon => "20 раз накидать 5 сообщений подряд"@,
            Achievement::Ivanchuk => "50 тегов одного и того же человека"@,
            Achievement::Sofizm => "50 сообщений длиннее 300 символов"@,
            Achievement::Petukh => "собрать пять любых других"@,
        }
    }

    /// The line Matthew says when the achievement is earned.
    pub open spec fn text_spec(self) -> Seq<char> {
        match self {
            Achievement::Terpim => "Тебе никто не ответил. И мы потерпим."@,
            Achievement::Opravdan => "Обписян в зале суда. Оправдан в зале суда."@,
            Achievement::OdinNaOdin => "Хорошо браток идем 1x1 с каждым 5 раундов по пол часа."@,
            Achievement::Shorty => "Пёр как дед. Шорты не выдержали."@,
            Achievement::Potolok => "у сатаника 9к, у меня 5600, чувствуете на каком я уровне?"@,
            Achievement::Belogvardeec => "Я Путин. Слава роду славянскому."@,
            Achievement::Vpn => "Я бы вмешался, но мне впн дороже."@,
            Achievement::Gavnil => "Я щас пишу это с верту за лям долларов."@,
            Achievement::Lysina => "Я бы тебе просто по твоей лысине вонючей c пыру въебал."@,
            Achievement::SsalStream => "Стрим, тебе с потолка капает."@,
            Achievement::Haha => "Это 90 айкью юмор я Даун."@,
            Achievement::Robot => "но вопрос, а вот картину он нарисует робот ебаный? сетку москитную он повесит?"@,
            Achievement::VseZanyaty => "Лол, а кто тебя позовет то."@,
            Achievement::Klon => "я с детства мечтал клонировать себя, чтобы в 5 в доту играть."@,
            Achievement::Ivanchuk => "он за меня общается."@,
            Achievement::Sofizm => "Казалось бы."@,
            Achievement::Petukh => "я петух в законе."@,
        }
    }

    /// The counter an achievement is measured by and its threshold; none for
    /// the one that counts other achievements.
    pub open spec fn progress_spec(self, stats: Map<Seq<char>, i64>) -> Option<(i64, i64)> {
        match self {
            Achievement::Terpim => Some((counter(stats, "unanswered_streak"@), TERPIM_STREAK)),
            Achievement::Opravdan => Some((counter(stats, "apologies"@), OPRAVDAN_APOLOGIES)),
            Achievement::OdinNaOdin => Some((counter(stats, "chain_len"@), CHAIN_LENGTH)),
            Achievement::Shorty => Some((counter(stats, "longest_message"@), SHORTY_CHARS)),
            Achievement::Potolok => Some((counter(stats, "night_messages"@), POTOLOK_NIGHTS)),
            Achievement::Belogvardeec => Some((counter(stats, "politics"@), BELOGVARDEEC_POLITICS)),
            Achievement::Vpn => Some((counter(stats, "ignored_pings"@), VPN_IGNORED)),
            Achievement::Gavnil => Some((counter(stats, "bot_replies"@), GAVNIL_REPLIES)),
            Achievement::Lysina => Some((counter(stats, "vinograd_mentions"@), LYSINA_MENTIONS)),
            Achievement::SsalStream => Some((counter(stats, "stream_mentions"@), STREAM_MENTIONS)),
            Achievement::Haha => Some((counter(stats, "laugh_only"@), HAHA_LAUGHS)),
            Achievement::Robot => Some((counter(stats, "replies_to_bot"@), ROBOT_REPLIES)),
            Achievement::VseZanyaty => Some((counter(stats, "unanswered_calls"@), CALLS_IGNORED)),
            Achievement::Klon => Some((counter(stats, "monologues"@), KLON_MONOLOGUES)),
            Achievement::Ivanchuk => Some((max_prefixed(stats, "mention:"@), IVANCHUK_MENTIONS)),
            Achievement::Sofizm => Some((counter(stats, "long_messages"@), SOFIZM_MESSAGES)),
            Achievement::Petukh => None,
        }
    }

    /// The code the achievement is stored under.
    pub fn code(&self) -> (r: &'static str)
        ensures
            r@ == self.code_spec(),
    {
        match self {
            Self::Terpim => "terpim",
            Self::Opravdan => "opravdan",
            Self::OdinNaOdin => "odin_na_odin",
            Self::Shorty => "shorty",
            Self::Potolok => "potolok",
            Self::Belogvardeec => "belogvardeec",
            Self::Vpn => "vpn",
            Self::Gavnil => "gavnil",
            Self::Lysina => "lysina",
            Self::SsalStream => "ssal_stream",
            Self::Haha => "haha",
            Self::Robot => "robot",
            Self::VseZanyaty => "vse_zanyaty",
            Self::Klon => "klon",
            Self::Ivanchuk => "ivanchuk",
            Self::Sofizm => "sofizm",
            Self::Petukh => "petukh",
        }
    }

    /// The title the achievement is announced with.
    pub fn title(self) -> (r: &'static str)
        ensures
            r@ == self.title_spec(),
    {
        match self {
            Self::Terpim => "Терпим",
            Self::Opravdan => "Оправдан в зале суда",
            Self::OdinNaOdin => "1х1 5 раундов по полчаса",
            Self::Shorty => "В этот день я и порвал эти шорты",
            Self::Potolok => "9500 потолок",
            Self::Belogvardeec => "Я белогвардеец",
            Self::Vpn => "Мне впн дороже",
            Self::Gavnil => "Я гавнил гавнодавов",
            Self::Lysina => "Сверкающая лысина",
            Self::SsalStream => "Я ссал стрим на голову",
            Self::Haha => "ХААХХААХАХАХАХАХ",
            Self::Robot => "Робот ебаный",
            Self::VseZanyaty => "К сожалению все заняты",
            Self::Klon => "Клонировать себя, чтоб в 5 в доту",
            Self::Ivanchuk => "Иванчук, обработать",
            Self::Sofizm => "Ну понятно, софизм",
            Self::Petukh => "Петух в законе",
        }
    }

    /// What it takes to earn the achievement.
    pub fn hint(self) -> (r: &'static str)
        ensures
            r@ == self.hint_spec(),
    {
        match self {
            Self::Terpim => "10 своих сообщений подряд, на которые никто не ответил",
            Self::Opravdan => "3 раза выматериться и извиниться в течение минуты",
            Self::OdinNaOdin => "20 реплаев подряд с одним человеком за полчаса",
            Self::Shorty => "сообщение длиннее 1000 символов",
            Self::Potolok => "500 сообщений с 02:00 до 06:00",
            Self::Belogvardeec => "100 сообщений про политику",
            Self::Vpn => "20 раз промолчать час после того, как тебя позвали",
            Self::Gavnil => "100 раз получить цитату от бота",
            Self::Lysina => "50 упоминаний Виноградова",
            Self::SsalStream => "50 упоминаний стрима",
            Self::Haha => "100 сообщений из одного ржача",
            Self::Robot => "100 ответов боту",
            Self::VseZanyaty => "10 раз позвать в игру и получить тишину",
            Self::Klon => "20 раз накидать 5 сообщений подряд",
            Self::Ivanchuk => "50 тегов одного и того же человека",
            Self::Sofizm => "50 сообщений длиннее 300 символов",
            Self::Petukh => "собрать пять любых других",
        }
    }

    /// The line Matthew says when the achievement is earned.
    pub fn text(self) -> (r: &'static str)
        ensures
            r@ == self.text_spec(),
    {
        match self {
            Self::Terpim => "Тебе никто не ответил. И мы потерпим.",
            Self::Opravdan => "Обписян в зале суда. Оправдан в зале суда.",
            Self::OdinNaOdin => "Хорошо браток идем 1x1 с каждым 5 раундов по пол часа.",
            Self::Shorty => "Пёр как дед. Шорты не выдержали.",
            Self::Potolok => "у сатаника 9к, у меня 5600, чувствуете на каком я уровне?",
            Self::Belogvardeec => "Я Путин. Слава роду славянскому.",
            Self::Vpn => "Я бы вмешался, но мне впн дороже.",
            Self::Gavnil => "Я щас пишу это с верту за лям долларов.",
            Self::Lysina => "Я бы тебе просто по твоей лысине вонючей c пыру въебал.",
            Self::SsalStream => "Стрим, тебе с потолка капает.",
            Self::Haha => "Это 90 айкью юмор я Даун.",
            Self::Robot => "но вопрос, а вот картину он нарисует робот ебаный? сетку москитную он повесит?",
            Self::VseZanyaty => "Лол, а кто тебя позовет то.",
            Self::Klon => "я с детства мечтал клонировать себя, чтобы в 5 в доту играть.",
            Self::Ivanchuk => "он за меня общается.",
            Self::Sofizm => "Казалось бы.",
            Self::Petukh => "я петух в законе.",
        }
    }

    /// The current value of the counter the achievement is measured by and its
    /// threshold; none for the achievement that counts other achievements.
    pub fn progress(self, stats: &Stats) -> (r: Option<(i64, i64)>)
        ensures
            r == self.progress_spec(stats@),
    {
        match self {
            Self::Terpim => Some((stats.get("unanswered_streak"), TERPIM_STREAK)),
            Self::Opravdan => Some((stats.get("apologies"), OPRAVDAN_APOLOGIES)),
            Self::OdinNaOdin => Some((stats.get("chain_len"), CHAIN_LENGTH)),
            Self::Shorty => Some((stats.get("longest_message"), SHORTY_CHARS)),
            Self::Potolok => Some((stats.get("night_messages"), POTOLOK_NIGHTS)),
            Self::Belogvardeec => Some((stats.get("politics"), BELOGVARDEEC_POLITICS)),
            Self::Vpn => Some((stats.get("ignored_pings"), VPN_IGNORED)),
            Self::Gavnil => Some((stats.get("bot_replies"), GAVNIL_REPLIES)),
            Self::Lysina => Some((stats.get("vinograd_mentions"), LYSINA_MENTIONS)),
            Self::SsalStream => Some((stats.get("stream_mentions"), STREAM_MENTIONS)),
            Self::Haha => Some((stats.get("laugh_only"), HAHA_LAUGHS)),
            Self::Robot => Some((stats.get("replies_to_bot"), ROBOT_REPLIES)),
            Self::VseZanyaty => Some((stats.get("unanswered_calls"), CALLS_IGNORED)),
            Self::Klon => Some((stats.get("monologues"), KLON_MONOLOGUES)),
            Self::Ivanchuk => Some((stats.max_with_prefix("mention:"), IVANCHUK_MENTIONS)),
            Self::Sofizm => Some((stats.get("long_messages"), SOFIZM_MESSAGES)),
            Self::Petukh => None,
        }
    }

}


impl Achievement {
    /// Every achievement, in the order the catalogue lists them.
    pub fn all() -> (r: Vec<Achievement>)
        ensures
            r@ == all_achievements(),
    {
        let r = vec![
            Achievement::Terpim, Achievement::Opravdan, Achievement::OdinNaOdin, Achievement::Shorty,
            Achievement::Potolok, Achievement::Belogvardeec, Achievement::Vpn, Achievement::Gavnil,
            Achievement::Lysina, Achievement::SsalStream, Achievement::Haha, Achievement::Robot,
            Achievement::VseZanyaty, Achievement::Klon, Achievement::Ivanchuk, Achievement::Sofizm,
            Achievement::Petukh,
        ];
        assert(r@ =~= all_achievements()) by {
            reveal(all_achievements);
        }
        r
    }

    /// The member has earned the achievement: its counter reached the
    /// threshold, or, for the achievement without a counter, five others are
    /// owned.
    pub open spec fn unlocked_spec(self, stats: Map<Seq<char>, i64>, owned: nat) -> bool {
        match self.progress_spec(stats) {
            Some((current, threshold)) => current >= threshold,
            None => owned >= PETUKH_ACHIEVEMENTS,
        }
    }

    /// Tells whether the member has earned the achievement, given their
    /// counters and the codes they already own.
    pub fn is_unlocked(self, stats: &Stats, owned: &Vec<String>) -> (r: bool)
        ensures
            r == self.unlocked_spec(stats@, owned@.len()),
    {
        match self.progress(stats) {
            Some((current, threshold)) => current >= threshold,
            None => owned.len() >= PETUKH_ACHIEVEMENTS,
        }
    }
}

/// The codes owned, by their characters.
pub open spec fn code_views(owned: Seq<String>) -> Seq<Seq<char>> {
    owned.map_values(|c: String| c@)
}

/// The achievement is among the owned codes.
pub open spec fn owns(owned: Seq<String>, a: Achievement) -> bool {
    code_views(owned).contains(a.code_spec())
}

/// The achievements earned and not yet owned, in catalogue order.
pub open spec fn unlocked_spec(stats: Map<Seq<char>, i64>, owned: Seq<String>) -> Seq<Achievement> {
    all_achievements().filter(|a: Achievement| !owns(owned, a) && a.unlocked_spec(stats, owned.len()))
}

fn owns_code(owned: &Vec<String>, code: &str) -> (r: bool)
    ensures
        r == code_views(owned@).contains(code@),
{
    let mut i: usize = 0;
    while i < owned.len()
        invariant
            i <= owned.len(),
            forall|j: int| 0 <= j < i ==> #[trigger] owned@[j]@ != code@,
        decreases owned.len() - i,
    {
        if same_text(owned[i].as_str(), code) {
            assert(code_views(owned@)[i as int] == code@);
            return true;
        }
        i = i + 1;
    }
    assert forall|j: int| 0 <= j < code_views(owned@).len() implies code_views(owned@)[j] != code@ by {
        assert(code_views(owned@)[j] == owned@[j]@);
    }
    false
}

/// Returns the achievements the member earned but does not own yet.
pub fn unlocked(stats: &Stats, owned: &Vec<String>) -> (r: Vec<Achievement>)
    ensures
        r@ == unlocked_spec(stats@, owned@),
{
    let all = Achievement::all();
    let ghost keep = |a: Achievement| !owns(owned@, a) && a.unlocked_spec(stats@, owned@.len());
    let mut r: Vec<Achievement> = Vec::new();
    let mut i: usize = 0;
    while i < all.len()
        invariant
            i <= all.len(),
            all@ == all_achievements(),
            keep == (|a: Achievement| !owns(owned@, a) && a.unlocked_spec(stats@, owned@.len())),
            r@ == all@.take(i as int).filter(keep),
        decreases all.len() - i,
    {
        let achievement = all[i];
        let owned_already = owns_code(owned, achievement.code());
        if !owned_already && achievement.is_unlocked(stats, owned) {
            r.push(achievement);
        }
        proof {
            reveal_with_fuel(Seq::filter, 1);
            assert(all@.take(i + 1).drop_last() =~= all@.take(i as int));
        }
        i = i + 1;
    }
    assert(all@.take(all.len() as int) =~= all@);
    r
}


/// No two achievements share a code, so an owned code names exactly one
/// achievement.
pub proof fn codes_are_distinct(a: Achievement, b: Achievement)
    requires
        a != b,
    ensures
        a.code_spec() != b.code_spec(),
{
        reveal_strlit("terpim");
        reveal_strlit("opravdan");
        reveal_strlit("odin_na_odin");
        reveal_strlit("shorty");
        reveal_strlit("potolok");
        reveal_strlit("belogvardeec");
        reveal_strlit("vpn");
        reveal_strlit("gavnil");
        reveal_strlit("lysina");
        reveal_strlit("ssal_stream");
        reveal_strlit("haha");
        reveal_strlit("robot");
        reveal_strlit("vse_zanyaty");
        reveal_strlit("klon");
        reveal_strlit("ivanchuk");
        reveal_strlit("sofizm");
        reveal_strlit("petukh");
    if a.code_spec() == b.code_spec() {
        assert(a.code_spec().len() == b.code_spec().len());
        assert(a.code_spec()[0] == b.code_spec()[0]);
        assert(a.code_spec()[1] == b.code_spec()[1]);
        assert(a.code_spec()[2] == b.code_spec()[2]);
    }
}

/// The decimal writing of every threshold an achievement asks for.
proof fn lemma_threshold_decimals()
    ensures
        decimal(3) == seq!['3'],
        decimal(10) == seq!['1', '0'],
        decimal(20) == seq!['2', '0'],
        decimal(50) == seq!['5', '0'],
        decimal(100) == seq!['1', '0', '0'],
        decimal(500) == seq!['5', '0', '0'],
        decimal(1000) == seq!['1', '0', '0', '0'],
{
    reveal_with_fuel(decimal, 5);
    assert(decimal(1) == seq!['1']);
    assert(decimal(2) == seq!['2']);
    assert(decimal(5) == seq!['5']);
    assert(decimal(10) =~= seq!['1', '0']);
    assert(decimal(20) =~= seq!['2', '0']);
    assert(decimal(50) =~= seq!['5', '0']);
    assert(decimal(100) =~= seq!['1', '0', '0']);
    assert(decimal(500) =~= seq!['5', '0', '0']);
    assert(decimal(1000) =~= seq!['1', '0', '0', '0']);
}

/// A run found at `k` is contained.
proof fn lemma_names(h: Seq<char>, k: int, needle: Seq<char>)
    requires
        0 <= k,
        k + needle.len() <= h.len(),
        h.subrange(k, k + needle.len()) == needle,
    ensures
        contains_seq(h, needle),
{
}

/// Every hint names the threshold its counter has to reach, written in
/// decimal; the one achievement without a counter asks for five others.
pub proof fn law_hint_names_threshold(a: Achievement, stats: Map<Seq<char>, i64>)
    ensures
        a.progress_spec(stats) matches Some((_, t)) ==> t >= 0 && contains_seq(a.hint_spec(), decimal(t as nat)),
        a.progress_spec(stats) is None ==> a == Achievement::Petukh && contains_seq(a.hint_spec(), "пять"@),
{
    lemma_threshold_decimals();
    match a {
        Achievement::Terpim => {
            reveal_strlit("10 своих сообщений подряд, на которые никто не ответил");
            assert("10 своих сообщений подряд, на которые никто не ответил"@.subrange(0, 2) =~= decimal(10));
            lemma_names(a.hint_spec(), 0, decimal(TERPIM_STREAK as nat));
        },
        Achievement::Opravdan => {
            reveal_strlit("3 раза выматериться и извиниться в течение минуты");
            assert("3 раза выматериться и извиниться в течение минуты"@.subrange(0, 1) =~= decimal(3));
            lemma_names(a.hint_spec(), 0, decimal(OPRAVDAN_APOLOGIES as nat));
        },
        Achievement::OdinNaOdin => {
            reveal_strlit("20 реплаев подряд с одним человеком за полчаса");
            assert("20 реплаев подряд с одним человеком за полчаса"@.subrange(0, 2) =~= decimal(20));
            lemma_names(a.hint_spec(), 0, decimal(CHAIN_LENGTH as nat));
        },
        Achievement::Shorty => {
            reveal_strlit("сообщение длиннее 1000 символов");
            assert("сообщение длиннее 1000 символов"@.subrange(18, 22) =~= decimal(1000));
            lemma_names(a.hint_spec(), 18, decimal(SHORTY_CHARS as nat));
        },
        Achievement::Potolok => {
            reveal_strlit("500 сообщений с 02:00 до 06:00");
            assert("500 сообщений с 02:00 до 06:00"@.subrange(0, 3) =~= decimal(500));
            lemma_names(a.hint_spec(), 0, decimal(POTOLOK_NIGHTS as nat));
        },
        Achievement::Belogvardeec => {
            reveal_strlit("100 сообщений про политику");
            assert("100 сообщений про политику"@.subrange(0, 3) =~= decimal(100));
            lemma_names(a.hint_spec(), 0, decimal(BELOGVARDEEC_POLITICS as nat));
        },
        Achievement::Vpn => {
            reveal_strlit("20 раз промолчать час после того, как тебя позвали");
            assert("20 раз промолчать час после того, как тебя позвали"@.subrange(0, 2) =~= decimal(20));
            lemma_names(a.hint_spec(), 0, decimal(VPN_IGNORED as nat));
        },
        Achievement::Gavnil => {
            reveal_strlit("100 раз получить цитату от бота");
            assert("100 раз получить цитату от бота"@.subrange(0, 3) =~= decimal(100));
            lemma_names(a.hint_spec(), 0, decimal(GAVNIL_REPLIES as nat));
        },
        Achievement::Lysina => {
            reveal_strlit("50 упоминаний Виноградова");
            assert("50 упоминаний Виноградова"@.subrange(0, 2) =~= decimal(50));
            lemma_names(a.hint_spec(), 0, decimal(LYSINA_MENTIONS as nat));
        },
        Achievement::SsalStream => {
            reveal_strlit("50 упоминаний стрима");
            assert("50 упоминаний стрима"@.subrange(0, 2) =~= decimal(50));
            lemma_names(a.hint_spec(), 0, decimal(STREAM_MENTIONS as nat));
        },
        Achievement::Haha => {
            reveal_strlit("100 сообщений из одного ржача");
            assert("100 сообщений из одного ржача"@.subrange(0, 3) =~= decimal(100));
            lemma_names(a.hint_spec(), 0, decimal(HAHA_LAUGHS as nat));
        },
        Achievement::Robot => {
            reveal_strlit("100 ответов боту");
            assert("100 ответов боту"@.subrange(0, 3) =~= decimal(100));
            lemma_names(a.hint_spec(), 0, decimal(ROBOT_REPLIES as nat));
        },
        Achievement::VseZanyaty => {
            reveal_strlit("10 раз позвать в игру и получить тишину");
            assert("10 раз позвать в игру и получить тишину"@.subrange(0, 2) =~= decimal(10));
            lemma_names(a.hint_spec(), 0, decimal(CALLS_IGNORED as nat));
        },
        Achievement::Klon => {
            reveal_strlit("20 раз накидать 5 сообщений подряд");
            assert("20 раз накидать 5 сообщений подряд"@.subrange(0, 2) =~= decimal(20));
            lemma_names(a.hint_spec(), 0, decimal(KLON_MONOLOGUES as nat));
        },
        Achievement::Ivanchuk => {
            reveal_strlit("50 тегов одного и того же человека");
            assert("50 тегов одного и того же человека"@.subrange(0, 2) =~= decimal(50));
            lemma_names(a.hint_spec(), 0, decimal(IVANCHUK_MENTIONS as nat));
        },
        Achievement::Sofizm => {
            reveal_strlit("50 сообщений длиннее 300 символов");
            assert("50 сообщений длиннее 300 символов"@.subrange(0, 2) =~= decimal(50));
            lemma_names(a.hint_spec(), 0, decimal(SOFIZM_MESSAGES as nat));
        },
        Achievement::Petukh => {
            reveal_strlit("собрать пять любых других");
            reveal_strlit("пять");
            assert("собрать пять любых других"@.subrange(8, 12) =~= "пять"@);
            lemma_names(a.hint_spec(), 8, "пять"@);
        },
    }
}

/// The catalogue holds seventeen achievements.
pub proof fn lemma_catalogue_size()
    ensures
        all_achievements().len() == 17,
{
    reveal(all_achievements);
}

/// The place of the achievement in the catalogue.
pub open spec fn place(a: Achievement) -> int {
    match a {
        Achievement::Terpim => 0,
        Achievement::Opravdan => 1,
        Achievement::OdinNaOdin => 2,
        Achievement::Shorty => 3,
        Achievement::Potolok => 4,
        Achievement::Belogvardeec => 5,
        Achievement::Vpn => 6,
        Achievement::Gavnil => 7,
        Achievement::Lysina => 8,
        Achievement::SsalStream => 9,
        Achievement::Haha => 10,
        Achievement::Robot => 11,
        Achievement::VseZanyaty => 12,
        Achievement::Klon => 13,
        Achievement::Ivanchuk => 14,
        Achievement::Sofizm => 15,
        Achievement::Petukh => 16,
    }
}

/// The catalogue lists every achievement once.
pub proof fn lemma_catalogue_distinct()
    ensures
        all_achievements().no_duplicates(),
{
    reveal(all_achievements);
    assert forall|i: int| 0 <= i < all_achievements().len() implies place(#[trigger] all_achievements()[i]) == i by {
        if i == 0 {
            assert(all_achievements()[i] == Achievement::Terpim);
        } else if i == 1 {
            assert(all_achievements()[i] == Achievement::Opravdan);
        } else if i == 2 {
            assert(all_achievements()[i] == Achievement::OdinNaOdin);
        } else if i == 3 {
            assert(all_achievements()[i] == Achievement::Shorty);
        } else if i == 4 {
            assert(all_achievements()[i] == Achievement::Potolok);
        } else if i == 5 {
            assert(all_achievements()[i] == Achievement::Belogvardeec);
        } else if i == 6 {
            assert(all_achievements()[i] == Achievement::Vpn);
        } else if i == 7 {
            assert(all_achievements()[i] == Achievement::Gavnil);
        } else if i == 8 {
            assert(all_achievements()[i] == Achievement::Lysina);
        } else if i == 9 {
            assert(all_achievements()[i] == Achievement::SsalStream);
        } else if i == 10 {
            assert(all_achievements()[i] == Achievement::Haha);
        } else if i == 11 {
            assert(all_achievements()[i] == Achievement::Robot);
        } else if i == 12 {
            assert(all_achievements()[i] == Achievement::VseZanyaty);
        } else if i == 13 {
            assert(all_achievements()[i] == Achievement::Klon);
        } else if i == 14 {
            assert(all_achievements()[i] == Achievement::Ivanchuk);
        } else if i == 15 {
            assert(all_achievements()[i] == Achievement::Sofizm);
        } else if i == 16 {
            assert(all_achievements()[i] == Achievement::Petukh);
        }
    }
}

/// Keeping part of a list without repeats keeps it without repeats.
pub proof fn lemma_filter_distinct_items<A>(s: Seq<A>, keep: spec_fn(A) -> bool)
    requires
        s.no_duplicates(),
    ensures
        s.filter(keep).no_duplicates(),
    decreases s.len(),
{
    if s.len() > 0 {
        let t = s.drop_last();
        assert(t.no_duplicates());
        lemma_filter_distinct_items(t, keep);
        assert(s.filter(keep) == if keep(s.last()) { t.filter(keep).push(s.last()) } else { t.filter(keep) }) by {
            reveal_with_fuel(Seq::filter, 1);
        }
        if keep(s.last()) {
            assert forall|i: int| 0 <= i < t.filter(keep).len() implies t.filter(keep)[i] != s.last() by {
                let x = t.filter(keep)[i];
                assert(t.filter(keep).contains(x));
                t.lemma_filter_contains_rev(keep, x);
                let k = choose|k: int| 0 <= k < t.len() && t[k] == x;
                assert(s[k] != s[s.len() - 1]);
            }
        }
    }
}

} // verus!
