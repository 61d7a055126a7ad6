use vstd::prelude::*;

verus! {

/// Stems that make a word obscene when it starts with them, or with them
/// behind one of `PREFIXES`.
pub open spec fn mat_roots() -> Seq<Seq<char>> {
    seq![
        "хуй"@, "хуя"@, "хуе"@, "хуё"@, "хую"@, "хуи"@, "хер"@, "пизд"@, "еб"@, "ёб"@,
        "бляд"@, "блят"@, "мудак"@, "мудач"@, "мудил"@, "сука"@, "суки"@, "суку"@,
        "сучк"@, "сучар"@, "пидор"@, "пидар"@, "залуп"@, "гандон"@,
    ]
}

/// Beginnings of innocent words that happen to start with an obscene stem.
pub open spec fn mat_exceptions() -> Seq<Seq<char>> {
    seq!["себ"@, "херсон"@, "херес"@, "херувим"@, "ебон"@, "хуис"@]
}

/// Verb and noun prefixes that may stand before an obscene stem.
pub open spec fn prefixes() -> Seq<Seq<char>> {
    seq![
        "в"@, "вз"@, "вы"@, "до"@, "за"@, "из"@, "на"@, "не"@, "о"@, "об"@, "от"@,
        "по"@, "под"@, "пере"@, "при"@, "про"@, "раз"@, "с"@, "у"@, "недо"@, "рас"@,
    ]
}

/// Words that stand for an apology.
pub open spec fn apology_stems() -> Seq<Seq<char>> {
    seq!["извин"@, "прост"@, "сорян"@, "сори"@, "пардон"@]
}

/// Stems of words about politics.
pub open spec fn politics_stems() -> Seq<Seq<char>> {
    seq![
        "путин"@, "политик"@, "выбор"@, "войн"@, "сво"@, "украин"@, "кремл"@,
        "навальн"@, "зеленск"@, "мобилиз"@, "санкци"@, "госдум"@, "митинг"@, "росси"@,
    ]
}

/// Stems of the games a call to play names.
pub open spec fn game_stems() -> Seq<Seq<char>> {
    seq!["дот"@, "катк"@, "игр"@, "пати"@, "кс"@]
}

/// The characters a laugh is made of.
pub open spec fn laugh_chars() -> Seq<char> {
    seq!['а', 'х', 'п', 'з', 'ж', 'ы']
}

/// The stem of a mention of the stream.
pub open spec fn stream_stem() -> Seq<char> {
    "стрим"@
}

/// The stem of a mention of Vinogradov.
pub open spec fn vinograd_stem() -> Seq<char> {
    "виноград"@
}

pub fn mat_roots_list() -> (v: Vec<&'static str>)
    ensures
        v@.map_values(|w: &str| w@) == mat_roots(),
{
    let v = vec![
        "хуй", "хуя", "хуе", "хуё", "хую", "хуи", "хер", "пизд", "еб", "ёб",
        "бляд", "блят", "мудак", "мудач", "мудил", "сука", "суки", "суку",
        "сучк", "сучар", "пидор", "пидар", "залуп", "гандон",
    ];
    assert(v@.map_values(|w: &str| w@) =~= mat_roots());
    v
}

pub fn mat_exceptions_list() -> (v: Vec<&'static str>)
    ensures
        v@.map_values(|w: &str| w@) == mat_exceptions(),
{
    let v = vec!["себ", "херсон", "херес", "херувим", "ебон", "хуис"];
    assert(v@.map_values(|w: &str| w@) =~= mat_exceptions());
    v
}

pub fn prefixes_list() -> (v: Vec<&'static str>)
    ensures
        v@.map_values(|w: &str| w@) == prefixes(),
{
    let v = vec![
        "в", "вз", "вы", "до", "за", "из", "на", "не", "о", "об", "от",
        "по", "под", "пере", "при", "про", "раз", "с", "у", "недо", "рас",
    ];
    assert(v@.map_values(|w: &str| w@) =~= prefixes());
    v
}

pub fn apology_list() -> (v: Vec<&'static str>)
    ensures
        v@.map_values(|w: &str| w@) == apology_stems(),
{
    let v = vec!["извин", "прост", "сорян", "сори", "пардон"];
    assert(v@.map_values(|w: &str| w@) =~= apology_stems());
    v
}

pub fn politics_list() -> (v: Vec<&'static str>)
    ensures
        v@.map_values(|w: &str| w@) == politics_stems(),
{
    let v = vec![
        "путин", "политик", "выбор", "войн", "сво", "украин", "кремл",
        "навальн", "зеленск", "мобилиз", "санкци", "госдум", "митинг", "росси",
    ];
    assert(v@.map_values(|w: &str| w@) =~= politics_stems());
    v
}

pub fn game_list() -> (v: Vec<&'static str>)
    ensures
        v@.map_values(|w: &str| w@) == game_stems(),
{
    let v = vec!["дот", "катк", "игр", "пати", "кс"];
    assert(v@.map_values(|w: &str| w@) =~= game_stems());
    v
}

} // verus!
