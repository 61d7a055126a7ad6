use vstd::prelude::*;

use crate::chars::{lemma_text_lt_total, lemma_text_lt_transitive, str_less, text_lt};

verus! {

/// One line of a ranking while it is built: who, the number they are ranked
/// by, and the text that breaks a tie (earlier first).
pub struct Ranked {
    pub user: i64,
    pub count: i64,
    pub latest: String,
}

/// What a ranked line is ordered by: count, tie-breaking text, user.
pub type RankKey = (i64, Seq<char>, i64);

pub open spec fn rank_key(r: Ranked) -> RankKey {
    (r.count, r.latest@, r.user)
}

pub open spec fn rank_keys(s: Seq<Ranked>) -> Seq<RankKey> {
    s.map_values(|r: Ranked| rank_key(r))
}

/// `a` comes before `b`: a higher count first, then the earlier tie-breaking
/// text, then the lower user.
pub open spec fn ranks_before(a: RankKey, b: RankKey) -> bool {
    a.0 > b.0 || (a.0 == b.0 && (text_lt(a.1, b.1) || (a.1 == b.1 && a.2 < b.2)))
}

/// Every line comes before every later one.
pub open spec fn in_rank_order(s: Seq<RankKey>) -> bool {
    forall|i: int, j: int| 0 <= i < j < s.len() ==> ranks_before(#[trigger] s[i], #[trigger] s[j])
}

pub proof fn lemma_ranks_before_transitive(a: RankKey, b: RankKey, c: RankKey)
    requires
        ranks_before(a, b),
        ranks_before(b, c),
    ensures
        ranks_before(a, c),
{
    if a.0 == b.0 && b.0 == c.0 {
        if text_lt(a.1, b.1) && text_lt(b.1, c.1) {
            lemma_text_lt_transitive(a.1, b.1, c.1);
        }
    }
}

pub proof fn lemma_ranks_before_total(a: RankKey, b: RankKey)
    requires
        a.2 != b.2,
    ensures
        ranks_before(a, b) || ranks_before(b, a),
        !(ranks_before(a, b) && ranks_before(b, a)),
{
    lemma_text_lt_total(a.1, b.1);
    lemma_text_lt_total(b.1, a.1);
    if text_lt(a.1, b.1) && text_lt(b.1, a.1) {
        lemma_text_lt_transitive(a.1, b.1, a.1);
    }
}

/// Inserts the line where its rank puts it and returns the position.
pub fn insert_ranked(v: &mut Vec<Ranked>, x: Ranked) -> (p: usize)
    requires
        in_rank_order(rank_keys(old(v)@)),
        forall|i: int| 0 <= i < old(v)@.len() ==> #[trigger] old(v)@[i].user != x.user,
    ensures
        p <= old(v)@.len(),
        final(v)@ == old(v)@.insert(p as int, x),
        in_rank_order(rank_keys(final(v)@)),
{
    let ghost keys = rank_keys(v@);
    let ghost kx = rank_key(x);
    let mut p: usize = 0;
    let mut found = false;
    while !found && p < v.len()
        invariant
            p <= v@.len(),
            keys == rank_keys(v@),
            kx == rank_key(x),
            found ==> p < v@.len() && ranks_before(kx, keys[p as int]),
            forall|i: int| 0 <= i < p ==> !ranks_before(kx, #[trigger] keys[i]),
        decreases v@.len() - p + (if found { 0int } else { 1int }),
    {
        if goes_before(&x, &v[p]) {
            found = true;
        } else {
            p = p + 1;
        }
    }
    let ghost before = v@;
    v.insert(p, x);
    proof {
        assert(rank_keys(v@) =~= keys.insert(p as int, kx));
        assert forall|i: int, j: int| 0 <= i < j < rank_keys(v@).len() implies ranks_before(#[trigger] rank_keys(v@)[i], #[trigger] rank_keys(v@)[j]) by {
            let s = rank_keys(v@);
            if j < p {
                assert(s[i] == keys[i] && s[j] == keys[j]);
            } else if j == p {
                assert(s[i] == keys[i]);
                assert(keys[i].2 == before[i].user);
                lemma_ranks_before_total(keys[i], kx);
            } else if i == p {
                assert(s[j] == keys[j - 1]);
                if j - 1 > p {
                    assert(ranks_before(keys[p as int], keys[j - 1]));
                    lemma_ranks_before_transitive(kx, keys[p as int], keys[j - 1]);
                }
            } else if i < p {
                assert(s[i] == keys[i] && s[j] == keys[j - 1]);
            } else {
                assert(s[i] == keys[i - 1] && s[j] == keys[j - 1]);
            }
        }
    }
    p
}

fn goes_before(a: &Ranked, b: &Ranked) -> (r: bool)
    ensures
        r == ranks_before(rank_key(*a), rank_key(*b)),
{
    if a.count != b.count {
        return a.count > b.count;
    }
    if str_less(a.latest.as_str(), b.latest.as_str()) {
        return true;
    }
    if str_less(b.latest.as_str(), a.latest.as_str()) {
        proof {
            lemma_text_lt_total(b.latest@, a.latest@);
            if text_lt(a.latest@, b.latest@) {
                lemma_text_lt_transitive(a.latest@, b.latest@, a.latest@);
            }
        }
        return false;
    }
    proof {
        lemma_text_lt_total(a.latest@, b.latest@);
    }
    a.user < b.user
}

/// Two lists that hold the same users, each listed in an order that is
/// strict and total on users, are the same list.
pub proof fn lemma_sorted_unique(a: Seq<i64>, b: Seq<i64>, before: spec_fn(i64, i64) -> bool)
    requires
        forall|x: i64| !#[trigger] before(x, x),
        forall|x: i64, y: i64| #[trigger] before(x, y) ==> !before(y, x),
        forall|x: i64, y: i64| x != y ==> #[trigger] before(x, y) || before(y, x),
        forall|i: int, j: int| 0 <= i < j < a.len() ==> before(#[trigger] a[i], #[trigger] a[j]),
        forall|i: int, j: int| 0 <= i < j < b.len() ==> before(#[trigger] b[i], #[trigger] b[j]),
        forall|x: i64| a.contains(x) <==> b.contains(x),
    ensures
        a == b,
    decreases a.len(),
{
    if a.len() == 0 {
        if b.len() > 0 {
            assert(b.contains(b[0]));
        }
        assert(a =~= b);
    } else if b.len() == 0 {
        assert(a.contains(a[0]));
    } else {
        assert(a.contains(a[0]));
        let k = choose|k: int| 0 <= k < b.len() && b[k] == a[0];
        assert(b.contains(b[0]));
        let m = choose|m: int| 0 <= m < a.len() && a[m] == b[0];
        if k > 0 {
            assert(before(b[0], b[k]));
            if m > 0 {
                assert(before(a[0], a[m]));
            }
            assert(false);
        }
        let a1 = a.drop_first();
        let b1 = b.drop_first();
        assert forall|x: i64| a1.contains(x) <==> b1.contains(x) by {
            if a1.contains(x) {
                let i = choose|i: int| 0 <= i < a1.len() && a1[i] == x;
                assert(a.contains(x) && a[i + 1] == x);
                assert(before(a[0], a[i + 1]));
                let j = choose|j: int| 0 <= j < b.len() && b[j] == x;
                assert(j != 0);
                assert(b1[j - 1] == x);
            }
            if b1.contains(x) {
                let i = choose|i: int| 0 <= i < b1.len() && b1[i] == x;
                assert(b.contains(x) && b[i + 1] == x);
                assert(before(b[0], b[i + 1]));
                let j = choose|j: int| 0 <= j < a.len() && a[j] == x;
                assert(j != 0);
                assert(a1[j - 1] == x);
            }
        }
        assert forall|i: int, j: int| 0 <= i < j < a1.len() implies before(#[trigger] a1[i], #[trigger] a1[j]) by {
            assert(a1[i] == a[i + 1] && a1[j] == a[j + 1]);
        }
        assert forall|i: int, j: int| 0 <= i < j < b1.len() implies before(#[trigger] b1[i], #[trigger] b1[j]) by {
            assert(b1[i] == b[i + 1] && b1[j] == b[j + 1]);
        }
        lemma_sorted_unique(a1, b1, before);
        assert(a[0] == b[0]);
        assert forall|i: int| 0 <= i < a.len() implies a[i] == b[i] by {
            if i > 0 {
                assert(a[i] == a1[i - 1] && b[i] == b1[i - 1]);
            }
        }
        assert(a =~= b);
    }
}

} // verus!
