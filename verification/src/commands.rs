use vstd::prelude::*;

use rand::rngs::StdRng;

use crate::chars::{chars_of, extend, extend_str, string_of};
use crate::clock::{day_label, day_label_of};
use crate::cuckold::{shown_name, shown_name_of};
use crate::digits::{count_text, number_text, signed_decimal};
use crate::html::{decimal, escape, escaped};
use crate::layout::{join, joined, rank_label, rank_label_of, string_views};
use crate::markov::{every_walk_kept, generate, joined_walk, starts_of};
use crate::rules::{all_achievements, place, Achievement, Stats};
use crate::store::{clamp_count, is_leaderboard, opt_view, owned_codes, Standing, Store};
use crate::text::views;
use crate::update::{cast, cast_id, Author};

verus! {

pub const BAR_CELLS: i64 = 10;

/// The commands the bot answers.
#[derive(Clone, Copy, PartialEq, Eq, Structural)]
pub enum Command {
    /// Every achievement and what it takes.
    Achievements,
    /// What the caller has unlocked and what not yet.
    MyAchievements,
    /// Who collected how many achievements.
    Top,
    /// A phrase nobody said.
    Bred,
}

/// The number of achievements in the catalogue.
pub open spec fn catalogue_size() -> nat {
    all_achievements().len()
}

/// One entry of the catalogue: the title and the condition.
pub open spec fn catalogue_line(a: Achievement) -> Seq<char> {
    "🏅 <b>"@ + escaped(a.title_spec()) + "</b>\n     <i>"@ + escaped(a.hint_spec()) + "</i>"@
}

/// The catalogue of achievements as the bot shows it.
pub open spec fn catalogue_text() -> Seq<char> {
    "🏆 <b>Ачивки</b> · всего "@ + decimal(catalogue_size()) + "\n\n"@ + joined(
        all_achievements().map_values(|a: Achievement| catalogue_line(a)),
        "\n\n"@,
    )
}

fn catalogue_line_of(a: Achievement) -> (r: String)
    ensures
        r@ == catalogue_line(a),
{
    let mut v = chars_of("🏅 <b>");
    extend_str(&mut v, escape(a.title()).as_str());
    extend_str(&mut v, "</b>\n     <i>");
    extend_str(&mut v, escape(a.hint()).as_str());
    extend_str(&mut v, "</i>");
    string_of(&v)
}

/// Lists every achievement with its condition.
pub fn catalogue() -> (r: String)
    ensures
        r@ == catalogue_text(),
{
    let all = Achievement::all();
    let mut lines: Vec<String> = Vec::new();
    let mut i: usize = 0;
    while i < all.len()
        invariant
            i <= all@.len(),
            all@ == all_achievements(),
            string_views(lines@) == all@.take(i as int).map_values(|a: Achievement| catalogue_line(a)),
        decreases all@.len() - i,
    {
        let ghost before = lines@;
        lines.push(catalogue_line_of(all[i]));
        proof {
            assert(string_views(lines@) =~= string_views(before).push(catalogue_line(all@[i as int])));
            assert(all@.take(i + 1).map_values(|a: Achievement| catalogue_line(a)) =~= all@.take(i as int).map_values(
                |a: Achievement| catalogue_line(a),
            ).push(catalogue_line(all@[i as int])));
        }
        i = i + 1;
    }
    assert(all@.take(i as int) =~= all@);
    let mut v = chars_of("🏆 <b>Ачивки</b> · всего ");
    extend_str(&mut v, count_text(all.len()).as_str());
    extend_str(&mut v, "\n\n");
    extend_str(&mut v, join(&lines, "\n\n").as_str());
    string_of(&v)
}

/// How many of the ten cells of a progress bar are filled: the share of
/// the threshold reached, rounded to the nearest tenth, at most all ten.
pub open spec fn filled_cells(current: i64, threshold: i64) -> nat {
    let scale: int = if threshold > 1 { threshold as int } else { 1 };
    let reached: int = if current > 0 { current as int } else { 0 };
    let tenfold: int = if reached * 10 > i64::MAX { i64::MAX as int } else { reached * 10 };
    let cells: int = (tenfold + scale / 2) / scale;
    if cells > BAR_CELLS { BAR_CELLS as nat } else { cells as nat }
}

/// A progress bar of ten cells.
pub open spec fn bar_text(current: i64, threshold: i64) -> Seq<char> {
    Seq::new(filled_cells(current, threshold), |i: int| '▰') + Seq::new(
        (BAR_CELLS - filled_cells(current, threshold)) as nat,
        |i: int| '▱',
    )
}

/// Draws how far the counter got towards the threshold.
pub fn bar(current: i64, threshold: i64) -> (r: String)
    ensures
        r@ == bar_text(current, threshold),
{
    let scale: i128 = if threshold > 1 { threshold as i128 } else { 1 };
    let reached: i128 = if current > 0 { current as i128 } else { 0 };
    let tenfold: i128 = if reached * 10 > 0x7fff_ffff_ffff_ffffi128 { 0x7fff_ffff_ffff_ffffi128 } else { reached * 10 };
    let cells: i128 = (tenfold + scale / 2) / scale;
    let filled: usize = if cells > 10 { 10 } else { cells as usize };
    assert(filled as nat == filled_cells(current, threshold));
    let mut v: Vec<char> = Vec::new();
    let mut i: usize = 0;
    while i < 10
        invariant
            i <= 10,
            filled <= 10,
            v@ == Seq::new(if i < filled { i as nat } else { filled as nat }, |k: int| '▰') + Seq::new(
                if i < filled { 0 } else { (i - filled) as nat },
                |k: int| '▱',
            ),
        decreases 10 - i,
    {
        if i < filled {
            v.push('▰');
        } else {
            v.push('▱');
        }
        i = i + 1;
        proof {
            assert(v@ =~= Seq::new(if i < filled { i as nat } else { filled as nat }, |k: int| '▰') + Seq::new(
                if i < filled { 0 } else { (i - filled) as nat },
                |k: int| '▱',
            ));
        }
    }
    assert(v@ =~= bar_text(current, threshold));
    string_of(&v)
}

/// The share of the threshold reached, as a fraction with a positive
/// denominator: minus one for an achievement without a counter, nothing for
/// a threshold not above zero.
pub open spec fn share(progress: Option<(i64, i64)>) -> (int, int) {
    match progress {
        None => (-1, 1),
        Some((current, threshold)) => if threshold <= 0 { (0, 1) } else { (current as int, threshold as int) },
    }
}

/// The first share is larger than the second.
#[verifier::opaque]
pub open spec fn larger(a: (int, int), b: (int, int)) -> bool {
    a.0 * b.1 > b.0 * a.1
}

proof fn lemma_larger_transitive(a: (int, int), b: (int, int), c: (int, int))
    requires
        a.1 > 0 && b.1 > 0 && c.1 > 0,
        larger(a, b) || (!larger(b, a) && !larger(a, b)),
        larger(b, c) || (!larger(c, b) && !larger(b, c)),
    ensures
        larger(a, b) || larger(b, c) ==> larger(a, c),
        !larger(c, a),
{
    reveal(larger);
    assert((a.0 * b.1 >= b.0 * a.1 && b.0 * c.1 >= c.0 * b.1) ==> a.0 * c.1 >= c.0 * a.1) by (nonlinear_arith)
        requires
            a.1 > 0 && b.1 > 0 && c.1 > 0;
    assert((a.0 * b.1 > b.0 * a.1 && b.0 * c.1 >= c.0 * b.1) ==> a.0 * c.1 > c.0 * a.1) by (nonlinear_arith)
        requires
            a.1 > 0 && b.1 > 0 && c.1 > 0;
    assert((a.0 * b.1 >= b.0 * a.1 && b.0 * c.1 > c.0 * b.1) ==> a.0 * c.1 > c.0 * a.1) by (nonlinear_arith)
        requires
            a.1 > 0 && b.1 > 0 && c.1 > 0;
}

/// A locked achievement with its place in the catalogue and its progress.
pub struct Locked {
    pub place: usize,
    pub achievement: Achievement,
    pub progress: Option<(i64, i64)>,
}

/// `a` comes before `b` in the list of locked achievements: the one closer
/// to its threshold first, the catalogue order on a tie.
pub open spec fn closer(a: Locked, b: Locked) -> bool {
    larger(share(a.progress), share(b.progress)) || (!larger(share(b.progress), share(a.progress)) && a.place < b.place)
}

fn is_larger(a: Option<(i64, i64)>, b: Option<(i64, i64)>) -> (r: bool)
    ensures
        r == larger(share(a), share(b)),
{
    let (an, ad): (i128, i128) = match a {
        None => (-1, 1),
        Some((current, threshold)) => if threshold <= 0 { (0, 1) } else { (current as i128, threshold as i128) },
    };
    let (bn, bd): (i128, i128) = match b {
        None => (-1, 1),
        Some((current, threshold)) => if threshold <= 0 { (0, 1) } else { (current as i128, threshold as i128) },
    };
    assert(-0x8000_0000_0000_0000int * 0x7fff_ffff_ffff_ffffint <= an * bd <= 0x8000_0000_0000_0000int * 0x7fff_ffff_ffff_ffffint) by (nonlinear_arith)
        requires
            -0x8000_0000_0000_0000int <= an <= 0x7fff_ffff_ffff_ffffint,
            1 <= bd <= 0x7fff_ffff_ffff_ffffint;
    assert(-0x8000_0000_0000_0000int * 0x7fff_ffff_ffff_ffffint <= bn * ad <= 0x8000_0000_0000_0000int * 0x7fff_ffff_ffff_ffffint) by (nonlinear_arith)
        requires
            -0x8000_0000_0000_0000int <= bn <= 0x7fff_ffff_ffff_ffffint,
            1 <= ad <= 0x7fff_ffff_ffff_ffffint;
    proof {
        reveal(larger);
    }
    an * bd > bn * ad
}

/// Every locked achievement comes before the ones after it.
pub open spec fn in_closeness_order(s: Seq<Locked>) -> bool {
    forall|i: int, j: int| 0 <= i < j < s.len() ==> closer(#[trigger] s[i], #[trigger] s[j])
}

/// Inserts the achievement after every one at least as close to its
/// threshold, all of which come earlier in the catalogue.
fn insert_locked(v: &mut Vec<Locked>, x: Locked) -> (p: usize)
    requires
        in_closeness_order(old(v)@),
        forall|i: int| 0 <= i < old(v)@.len() ==> (#[trigger] old(v)@[i]).place < x.place,
    ensures
        p <= old(v)@.len(),
        final(v)@ == old(v)@.insert(p as int, x),
        in_closeness_order(final(v)@),
{
    let mut p: usize = 0;
    let mut found = false;
    while !found && p < v.len()
        invariant
            p <= v@.len(),
            v@ == old(v)@,
            found ==> p < v@.len() && larger(share(x.progress), share(v@[p as int].progress)),
            forall|i: int| 0 <= i < p ==> !larger(share(x.progress), share(#[trigger] v@[i].progress)),
        decreases v@.len() - p + (if found { 0int } else { 1int }),
    {
        if is_larger(x.progress, v[p].progress) {
            found = true;
        } else {
            p = p + 1;
        }
    }
    let ghost before = v@;
    v.insert(p, x);
    proof {
        assert forall|i: int, j: int| 0 <= i < j < v@.len() implies closer(#[trigger] v@[i], #[trigger] v@[j]) by {
            if j < p {
                assert(v@[i] == before[i] && v@[j] == before[j]);
            } else if j == p {
                assert(v@[i] == before[i]);
                assert(before[i].place < x.place);
            } else if i == p {
                assert(v@[j] == before[j - 1]);
                if j - 1 > p {
                    assert(closer(before[p as int], before[j - 1]));
                    lemma_larger_transitive(share(x.progress), share(before[p as int].progress), share(before[j - 1].progress));
                }
            } else if i < p {
                assert(v@[i] == before[i] && v@[j] == before[j - 1]);
            } else {
                assert(v@[i] == before[i - 1] && v@[j] == before[j - 1]);
            }
        }
    }
    p
}

/// The day an achievement was unlocked, as `dd.mm.yyyy`, or the stored text
/// when chrono cannot read it.
pub open spec fn day_text(at: Seq<char>) -> Seq<char> {
    match day_label_of(at) {
        Some(label) => label,
        None => at,
    }
}

/// Returns the day of the moment, as `dd.mm.yyyy`, or the text itself when
/// it cannot be read.
pub fn day_of(timestamp: &str) -> (r: String)
    ensures
        r@ == day_text(timestamp@),
{
    match day_label(timestamp) {
        Some(label) => label,
        None => timestamp.to_string(),
    }
}

/// When the member unlocked the achievement, empty when they did not.
pub open spec fn unlocked_at_text(s: Store, chat: i64, user: i64, a: Achievement) -> Seq<char> {
    if s.achievement_map().contains_key((chat, user, a.code_spec())) {
        s.achievement_map()[(chat, user, a.code_spec())]
    } else {
        Seq::empty()
    }
}

/// The line of an unlocked achievement: the title and the day.
pub open spec fn unlocked_line(s: Store, chat: i64, user: i64, a: Achievement) -> Seq<char> {
    "🏅 <b>"@ + escaped(a.title_spec()) + "</b> · <i>"@ + day_text(unlocked_at_text(s, chat, user, a)) + "</i>"@
}

/// The line of a locked achievement: the title and, when it has a counter,
/// a progress bar and the counter against the threshold.
pub open spec fn locked_line(a: Achievement, progress: Option<(i64, i64)>) -> Seq<char> {
    match progress {
        Some((current, threshold)) => "🔒 <b>"@ + escaped(a.title_spec()) + "</b>\n     "@ + bar_text(current, threshold)
            + " <code>"@ + signed_decimal(current as int) + "/"@ + signed_decimal(threshold as int) + "</code>"@,
        None => "🔒 <b>"@ + escaped(a.title_spec()) + "</b>"@,
    }
}

/// The head of the personal list: the name, how many of the catalogue are
/// owned and a bar of it.
pub open spec fn personal_header(name: Seq<char>, owned: nat) -> Seq<char> {
    "🏆 <b>"@ + escaped(name) + "</b> · "@ + decimal(owned) + " из "@ + decimal(catalogue_size()) + "\n"@ + bar_text(
        clamp_count(owned),
        catalogue_size() as i64,
    )
}

/// The sections that are not empty, a blank line between each two.
pub open spec fn sections(parts: Seq<Seq<char>>) -> Seq<char> {
    joined(parts.filter(|p: Seq<char>| p.len() > 0), "\n\n"@)
}

/// The achievements of the catalogue the member owns, in catalogue order.
pub open spec fn owned_in_order(s: Store, chat: i64, user: i64) -> Seq<Achievement> {
    all_achievements().filter(|a: Achievement| owned_codes(s.achievement_map(), chat, user).contains(a.code_spec()))
}

/// `locked` lists, each once, the achievements of the catalogue the member
/// does not own, with their progress, the closest to its threshold first
/// and in catalogue order on a tie.
pub open spec fn locked_in_order(s: Store, chat: i64, user: i64, locked: Seq<Locked>) -> bool {
    &&& in_closeness_order(locked)
    &&& forall|i: int| 0 <= i < locked.len() ==> {
        &&& 0 <= (#[trigger] locked[i]).place < all_achievements().len()
        &&& all_achievements()[locked[i].place as int] == locked[i].achievement
        &&& !owned_codes(s.achievement_map(), chat, user).contains(locked[i].achievement.code_spec())
        &&& locked[i].progress == locked[i].achievement.progress_spec(s.member_stats(chat, user))
    }
    &&& forall|k: int| 0 <= k < all_achievements().len() && !owned_codes(s.achievement_map(), chat, user).contains(
        (#[trigger] all_achievements()[k]).code_spec(),
    ) ==> exists|i: int| 0 <= i < locked.len() && #[trigger] locked[i].place == k
}

/// The personal list of the member as the bot shows it.
pub open spec fn personal_text(s: Store, chat: i64, user: i64, name: Seq<char>, locked: Seq<Locked>) -> Seq<char> {
    let header = personal_header(name, owned_codes(s.achievement_map(), chat, user).len());
    let opened = joined(owned_in_order(s, chat, user).map_values(|a: Achievement| unlocked_line(s, chat, user, a)), "\n"@);
    let closed = joined(locked.map_values(|l: Locked| locked_line(l.achievement, l.progress)), "\n"@);
    sections(seq![header, opened, closed])
}

fn unlocked_line_of(store: &Store, chat: i64, user: i64, a: Achievement) -> (r: String)
    ensures
        r@ == unlocked_line(*store, chat, user, a),
{
    let at = match store.unlocked_at(chat, user, a.code()) {
        Some(at) => at,
        None => String::new(),
    };
    let mut v = chars_of("🏅 <b>");
    extend_str(&mut v, escape(a.title()).as_str());
    extend_str(&mut v, "</b> · <i>");
    extend_str(&mut v, day_of(at.as_str()).as_str());
    extend_str(&mut v, "</i>");
    string_of(&v)
}

fn locked_line_of(a: Achievement, progress: Option<(i64, i64)>) -> (r: String)
    ensures
        r@ == locked_line(a, progress),
{
    let mut v = chars_of("🔒 <b>");
    extend_str(&mut v, escape(a.title()).as_str());
    match progress {
        Some((current, threshold)) => {
            extend_str(&mut v, "</b>\n     ");
            extend_str(&mut v, bar(current, threshold).as_str());
            extend_str(&mut v, " <code>");
            extend_str(&mut v, number_text(current).as_str());
            extend_str(&mut v, "/");
            extend_str(&mut v, number_text(threshold).as_str());
            extend_str(&mut v, "</code>");
        },
        None => {
            extend_str(&mut v, "</b>");
        },
    }
    string_of(&v)
}

/// Joins the sections that are not empty with a blank line.
fn join_sections(parts: &Vec<String>) -> (r: String)
    ensures
        r@ == sections(string_views(parts@)),
{
    let ghost keep = |p: Seq<char>| p.len() > 0;
    let mut kept: Vec<String> = Vec::new();
    let mut i: usize = 0;
    while i < parts.len()
        invariant
            i <= parts@.len(),
            keep == (|p: Seq<char>| p.len() > 0),
            string_views(kept@) == string_views(parts@).take(i as int).filter(keep),
        decreases parts@.len() - i,
    {
        let ghost before = kept@;
        if chars_of(parts[i].as_str()).len() > 0 {
            kept.push(parts[i].clone());
        }
        proof {
            let all = string_views(parts@);
            assert(all.take(i + 1).drop_last() =~= all.take(i as int));
            assert(all.take(i + 1).filter(keep) == if keep(all[i as int]) { all.take(i as int).filter(keep).push(all[i as int]) } else { all.take(i as int).filter(keep) }) by {
                reveal_with_fuel(Seq::filter, 1);
            }
            assert(all[i as int] == parts@[i as int]@);
            if keep(all[i as int]) {
                assert(string_views(kept@) =~= string_views(before).push(parts@[i as int]@));
            }
        }
        i = i + 1;
    }
    assert(string_views(parts@).take(i as int) =~= string_views(parts@));
    join(&kept, "\n\n")
}

/// Tells whether the list holds the code.
fn has_code(owned: &Vec<String>, code: &str) -> (r: bool)
    ensures
        r == exists|j: int| 0 <= j < owned@.len() && #[trigger] owned@[j]@ == code@,
{
    let mut k: usize = 0;
    while k < owned.len()
        invariant
            k <= owned@.len(),
            forall|j: int| 0 <= j < k ==> #[trigger] owned@[j]@ != code@,
        decreases owned@.len() - k,
    {
        if crate::chars::same_text(owned[k].as_str(), code) {
            return true;
        }
        k = k + 1;
    }
    false
}

/// The lines of the achievements the member owns, in catalogue order.
fn opened_lines(store: &Store, chat: i64, user: i64, owned: &Vec<String>) -> (r: Vec<String>)
    requires
        forall|c: Seq<char>| owned_codes(store.achievement_map(), chat, user).contains(c)
            <==> exists|k: int| 0 <= k < owned@.len() && #[trigger] owned@[k]@ == c,
    ensures
        string_views(r@) == owned_in_order(*store, chat, user).map_values(|a: Achievement| unlocked_line(*store, chat, user, a)),
{
    let ghost codes = owned_codes(store.achievement_map(), chat, user);
    let ghost in_owned = |a: Achievement| codes.contains(a.code_spec());
    let ghost f = |a: Achievement| unlocked_line(*store, chat, user, a);
    let all = Achievement::all();
    let mut opened: Vec<String> = Vec::new();
    let mut i: usize = 0;
    while i < all.len()
        invariant
            i <= all@.len(),
            all@ == all_achievements(),
            codes == owned_codes(store.achievement_map(), chat, user),
            in_owned == (|a: Achievement| codes.contains(a.code_spec())),
            f == (|a: Achievement| unlocked_line(*store, chat, user, a)),
            forall|c: Seq<char>| codes.contains(c) <==> exists|k: int| 0 <= k < owned@.len() && #[trigger] owned@[k]@ == c,
            string_views(opened@) == all@.take(i as int).filter(in_owned).map_values(f),
        decreases all@.len() - i,
    {
        let achievement = all[i];
        let owns_it = has_code(owned, achievement.code());
        proof {
            assert(owns_it == codes.contains(achievement.code_spec()));
            assert(all@.take(i + 1).drop_last() =~= all@.take(i as int));
            assert(all@.take(i + 1).filter(in_owned) == if in_owned(all@[i as int]) {
                all@.take(i as int).filter(in_owned).push(all@[i as int])
            } else {
                all@.take(i as int).filter(in_owned)
            }) by {
                reveal_with_fuel(Seq::filter, 1);
            }
        }
        if owns_it {
            let ghost before = opened@;
            opened.push(unlocked_line_of(store, chat, user, achievement));
            proof {
                assert(string_views(opened@) =~= string_views(before).push(f(achievement)));
                assert(all@.take(i as int).filter(in_owned).push(achievement).map_values(f) =~= all@.take(i as int).filter(
                    in_owned,
                ).map_values(f).push(f(achievement)));
            }
        }
        i = i + 1;
    }
    assert(all@.take(i as int) =~= all@);
    opened
}

/// The catalogue places of the locked achievements listed.
pub open spec fn places(s: Seq<Locked>) -> Set<int> {
    s.map_values(|l: Locked| l.place as int).to_set()
}

/// The catalogue places before `i` of achievements the member does not own.
pub open spec fn unowned_upto(cat: Seq<Achievement>, codes: Set<Seq<char>>, i: int) -> Set<int> {
    Set::new(|k: int| 0 <= k < i && !codes.contains(cat[k].code_spec()))
}

proof fn lemma_places_insert(before: Seq<Locked>, p: int, x: Locked)
    requires
        0 <= p <= before.len(),
    ensures
        places(before.insert(p, x)) == places(before).insert(x.place as int),
{
    let after = before.insert(p, x);
    let f = |l: Locked| l.place as int;
    assert forall|v: int| places(after).contains(v) <==> places(before).insert(x.place as int).contains(v) by {
        if places(after).contains(v) {
            assert(after.map_values(f).contains(v));
            let k = choose|k: int| 0 <= k < after.map_values(f).len() && after.map_values(f)[k] == v;
            if k < p {
                assert(before.map_values(f)[k] == v);
                assert(before.map_values(f).contains(v));
            } else if k > p {
                assert(before.map_values(f)[k - 1] == v);
                assert(before.map_values(f).contains(v));
            }
        }
        if places(before).contains(v) {
            assert(before.map_values(f).contains(v));
            let k = choose|k: int| 0 <= k < before.map_values(f).len() && before.map_values(f)[k] == v;
            if k < p {
                assert(after.map_values(f)[k] == v);
            } else {
                assert(after.map_values(f)[k + 1] == v);
            }
            assert(after.map_values(f).contains(v));
        }
        if v == x.place as int {
            assert(after.map_values(f)[p] == v);
            assert(after.map_values(f).contains(v));
        }
    }
    assert(places(after) =~= places(before).insert(x.place as int));
}

/// The achievements the member does not own, the closest to its threshold
/// first and in catalogue order on a tie.
fn locked_list(store: &Store, chat: i64, user: i64, stats: &Stats, owned: &Vec<String>) -> (r: Vec<Locked>)
    requires
        stats@ == store.member_stats(chat, user),
        forall|c: Seq<char>| owned_codes(store.achievement_map(), chat, user).contains(c)
            <==> exists|k: int| 0 <= k < owned@.len() && #[trigger] owned@[k]@ == c,
    ensures
        locked_in_order(*store, chat, user, r@),
{
    let ghost codes = owned_codes(store.achievement_map(), chat, user);
    let ghost counters = store.member_stats(chat, user);
    let all = Achievement::all();
    let ghost cat = all@;
    let mut locked: Vec<Locked> = Vec::new();
    let mut i: usize = 0;
    assert(places(locked@) =~= unowned_upto(cat, codes, 0));
    while i < all.len()
        invariant
            i <= cat.len(),
            cat == all@,
            stats@ == counters,
            forall|c: Seq<char>| codes.contains(c) <==> exists|k: int| 0 <= k < owned@.len() && #[trigger] owned@[k]@ == c,
            in_closeness_order(locked@),
            forall|j: int| 0 <= j < locked@.len() ==> {
                &&& (#[trigger] locked@[j]).place < i
                &&& cat[locked@[j].place as int] == locked@[j].achievement
                &&& !codes.contains(locked@[j].achievement.code_spec())
                &&& locked@[j].progress == locked@[j].achievement.progress_spec(counters)
            },
            places(locked@) == unowned_upto(cat, codes, i as int),
        decreases cat.len() - i,
    {
        let achievement = all[i];
        let owns_it = has_code(owned, achievement.code());
        if !owns_it {
            let ghost before = locked@;
            let progress = achievement.progress(stats);
            let x = Locked { place: i, achievement, progress };
            let p = insert_locked(&mut locked, x);
            proof {
                assert forall|j: int| 0 <= j < locked@.len() implies {
                    &&& (#[trigger] locked@[j]).place < i + 1
                    &&& cat[locked@[j].place as int] == locked@[j].achievement
                    &&& !codes.contains(locked@[j].achievement.code_spec())
                    &&& locked@[j].progress == locked@[j].achievement.progress_spec(counters)
                } by {
                    if j < p {
                        assert(locked@[j] == before[j]);
                    } else if j > p {
                        assert(locked@[j] == before[j - 1]);
                    }
                }
                lemma_places_insert(before, p as int, x);
                assert(unowned_upto(cat, codes, i + 1) =~= unowned_upto(cat, codes, i as int).insert(i as int));
            }
        } else {
            proof {
                assert(codes.contains(achievement.code_spec()));
                assert(unowned_upto(cat, codes, i + 1) =~= unowned_upto(cat, codes, i as int));
            }
        }
        i = i + 1;
    }
    proof {
        assert(cat == all_achievements());
        assert forall|k: int| 0 <= k < all_achievements().len() && !codes.contains((#[trigger] all_achievements()[k]).code_spec())
            implies exists|j: int| 0 <= j < locked@.len() && #[trigger] locked@[j].place == k by {
            assert(unowned_upto(cat, codes, i as int).contains(k));
            let f = |l: Locked| l.place as int;
            assert(locked@.map_values(f).contains(k));
            let j = choose|j: int| 0 <= j < locked@.map_values(f).len() && locked@.map_values(f)[j] == k;
            assert(locked@[j].place == k);
        }
    }
    locked
}

/// The codes the store lists for the member, each once, are as many as the
/// member owns.
proof fn lemma_owned_count(codes: Set<Seq<char>>, owned: Seq<String>)
    requires
        forall|c: Seq<char>| codes.contains(c) <==> exists|k: int| 0 <= k < owned.len() && #[trigger] owned[k]@ == c,
        forall|i: int, j: int| 0 <= i < j < owned.len() ==> owned[i]@ != owned[j]@,
    ensures
        owned.len() == codes.len(),
{
    let views_owned = owned.map_values(|c: String| c@);
    assert(views_owned.no_duplicates()) by {
        assert forall|a: int, b: int| 0 <= a < views_owned.len() && 0 <= b < views_owned.len() && a != b implies views_owned[a] != views_owned[b] by {
            if a < b {
                assert(owned[a]@ != owned[b]@);
            } else {
                assert(owned[b]@ != owned[a]@);
            }
        }
    }
    views_owned.unique_seq_to_set();
    assert(views_owned.to_set() =~= codes) by {
        assert forall|c: Seq<char>| views_owned.to_set().contains(c) <==> codes.contains(c) by {
            if codes.contains(c) {
                let k = choose|k: int| 0 <= k < owned.len() && #[trigger] owned[k]@ == c;
                assert(views_owned[k] == c);
            }
            if views_owned.to_set().contains(c) {
                let k = choose|k: int| 0 <= k < views_owned.len() && views_owned[k] == c;
                assert(owned[k]@ == c);
            }
        }
    }
}

/// The lines of the locked achievements, in the order given.
fn closed_lines(locked: &Vec<Locked>) -> (r: Vec<String>)
    ensures
        string_views(r@) == locked@.map_values(|l: Locked| locked_line(l.achievement, l.progress)),
{
    let ghost f = |l: Locked| locked_line(l.achievement, l.progress);
    let mut closed: Vec<String> = Vec::new();
    let mut j: usize = 0;
    while j < locked.len()
        invariant
            j <= locked@.len(),
            f == (|l: Locked| locked_line(l.achievement, l.progress)),
            string_views(closed@) == locked@.take(j as int).map_values(f),
        decreases locked@.len() - j,
    {
        let ghost before = closed@;
        closed.push(locked_line_of(locked[j].achievement, locked[j].progress));
        proof {
            assert(string_views(closed@) =~= string_views(before).push(f(locked@[j as int])));
            assert(locked@.take(j + 1).map_values(f) =~= locked@.take(j as int).map_values(f).push(f(locked@[j as int])));
        }
        j = j + 1;
    }
    assert(locked@.take(j as int) =~= locked@);
    closed
}

/// The head of the personal list.
fn personal_header_of(name: &str, count: usize) -> (r: String)
    ensures
        r@ == personal_header(name@, count as nat),
{
    let size = Achievement::all().len();
    let count_i64: i64 = if (count as u64) <= 0x7fff_ffff_ffff_ffffu64 { count as i64 } else { 0x7fff_ffff_ffff_ffffi64 };
    let mut head = chars_of("🏆 <b>");
    extend_str(&mut head, escape(name).as_str());
    extend_str(&mut head, "</b> · ");
    extend_str(&mut head, count_text(count).as_str());
    extend_str(&mut head, " из ");
    extend_str(&mut head, count_text(size).as_str());
    extend_str(&mut head, "\n");
    extend_str(&mut head, bar(count_i64, size as i64).as_str());
    string_of(&head)
}

/// Shows the caller what they have unlocked, with the day, and what is
/// still locked, the closest to its threshold first.
pub fn personal(store: &Store, chat: i64, author: &Option<Author>) -> (r: String)
    ensures
        author is None ==> r@ == "Не вижу кто спрашивает."@,
        author matches Some(a) ==> exists|locked: Seq<Locked>| #[trigger] locked_in_order(*store, chat, cast_id(a.id), locked)
            && r@ == personal_text(*store, chat, cast_id(a.id), a.first_name@, locked),
{
    let author = match author {
        Some(author) => author,
        None => {
            return "Не вижу кто спрашивает.".to_string();
        },
    };
    let user = cast(author.id);
    let stats = store.stats(chat, user);
    let owned = store.owned(chat, user);
    proof {
        lemma_owned_count(owned_codes(store.achievement_map(), chat, user), owned@);
    }
    let header = personal_header_of(author.first_name.as_str(), owned.len());
    let opened = opened_lines(store, chat, user, &owned);
    let locked = locked_list(store, chat, user, &stats, &owned);
    let closed = closed_lines(&locked);
    let opened_text = join(&opened, "\n");
    let closed_text = join(&closed, "\n");
    let ghost head_view = header@;
    let ghost opened_view = opened_text@;
    let ghost closed_view = closed_text@;
    let parts = vec![header, opened_text, closed_text];
    let r = join_sections(&parts);
    proof {
        assert(string_views(parts@) =~= seq![head_view, opened_view, closed_view]);
        assert(r@ == personal_text(*store, chat, user, author.first_name@, locked@));
    }
    r
}

/// One line of the achievements ranking.
pub open spec fn top_line(place: nat, st: Standing) -> Seq<char> {
    rank_label(place) + " <b>"@ + escaped(shown_name(st)) + "</b> · "@ + signed_decimal(st.count as int) + " из "@ + decimal(
        catalogue_size(),
    )
}

/// The achievements ranking as the bot shows it.
pub open spec fn top_text(ranked: Seq<Standing>) -> Seq<char> {
    if ranked.len() == 0 {
        "🏆 <b>Ачивки чата</b>\n\nПока никто ничего не собрал. Терпим."@
    } else {
        "🏆 <b>Ачивки чата</b>\n\n"@ + joined(Seq::new(ranked.len(), |i: int| top_line(i as nat, ranked[i])), "\n"@)
    }
}

fn top_line_of(place: usize, st: &Standing) -> (r: String)
    requires
        place < usize::MAX,
    ensures
        r@ == top_line(place as nat, *st),
{
    let mut v = chars_of(rank_label_of(place).as_str());
    extend_str(&mut v, " <b>");
    extend_str(&mut v, escape(shown_name_of(st).as_str()).as_str());
    extend_str(&mut v, "</b> · ");
    extend_str(&mut v, number_text(st.count).as_str());
    extend_str(&mut v, " из ");
    let all = Achievement::all();
    extend_str(&mut v, count_text(all.len()).as_str());
    string_of(&v)
}

/// Ranks the whole chat by how many achievements each member collected.
pub fn top(store: &Store, chat: i64) -> (r: String)
    ensures
        exists|ranked: Seq<Standing>| #[trigger] is_leaderboard(*store, chat, ranked) && r@ == top_text(ranked),
{
    let ranked = store.leaderboard(chat);
    if ranked.len() == 0 {
        let r = "🏆 <b>Ачивки чата</b>\n\nПока никто ничего не собрал. Терпим.".to_string();
        assert(r@ == top_text(ranked@));
        return r;
    }
    let mut lines: Vec<String> = Vec::new();
    let mut i: usize = 0;
    while i < ranked.len()
        invariant
            i <= ranked@.len(),
            string_views(lines@) == Seq::new(i as nat, |k: int| top_line(k as nat, ranked@[k])),
        decreases ranked@.len() - i,
    {
        let ghost before = lines@;
        lines.push(top_line_of(i, &ranked[i]));
        proof {
            assert(string_views(lines@) =~= string_views(before).push(top_line(i as nat, ranked@[i as int])));
            assert(string_views(lines@) =~= Seq::new((i + 1) as nat, |k: int| top_line(k as nat, ranked@[k])));
        }
        i = i + 1;
    }
    let mut v = chars_of("🏆 <b>Ачивки чата</b>\n\n");
    extend_str(&mut v, join(&lines, "\n").as_str());
    let r = string_of(&v);
    assert(r@ == top_text(ranked@));
    r
}

/// The text of every quote, the corpus phrases are built out of.
pub open spec fn corpus_of(s: Store) -> Seq<Seq<char>> {
    s.quote_list().map_values(|q: crate::store::QuoteInfo| q.2)
}

/// Answers with a phrase nobody said, built out of every quote.
pub fn bred(store: &Store, rng: &mut StdRng) -> (r: String)
    ensures
        r@ == "Нечего сказать. Терпим."@ || exists|phrase: Seq<char>| #[trigger] joined_walk(corpus_of(*store), phrase)
            && r@ == escaped(phrase),
        starts_of(corpus_of(*store)).len() == 0 ==> r@ == "Нечего сказать. Терпим."@,
        starts_of(corpus_of(*store)).len() > 0 && every_walk_kept(corpus_of(*store))
            ==> exists|phrase: Seq<char>| #[trigger] joined_walk(corpus_of(*store), phrase) && r@ == escaped(phrase),
{
    let corpus = store.all_quotes();
    assert(views(corpus@) =~= corpus_of(*store));
    match generate(&corpus, rng) {
        Some(phrase) => escape(phrase.as_str()),
        None => "Нечего сказать. Терпим.".to_string(),
    }
}

} // verus!
