use vstd::prelude::*;

verus! {

/// The value stored under `k` in a list of key/value pairs where a later pair
/// overrides an earlier one with the same key.
pub open spec fn lookup<K, V>(s: Seq<(K, V)>, k: K) -> Option<V>
    decreases s.len(),
{
    if s.len() == 0 {
        None
    } else if s.last().0 == k {
        Some(s.last().1)
    } else {
        lookup(s.drop_last(), k)
    }
}

/// No two pairs share a key.
pub open spec fn distinct_keys<K, V>(s: Seq<(K, V)>) -> bool {
    forall|i: int, j: int| 0 <= i < s.len() && 0 <= j < s.len() && i != j ==> #[trigger] s[i].0 != #[trigger] s[j].0
}

/// The pairs seen as a map, a later pair overriding an earlier one.
pub open spec fn as_map<K, V>(s: Seq<(K, V)>) -> Map<K, V> {
    Map::new(|k: K| lookup(s, k) is Some, |k: K| lookup(s, k)->0)
}

pub proof fn lemma_lookup_absent<K, V>(s: Seq<(K, V)>, k: K)
    requires
        forall|i: int| 0 <= i < s.len() ==> #[trigger] s[i].0 != k,
    ensures
        lookup(s, k) is None,
    decreases s.len(),
{
    if s.len() > 0 {
        assert(s.last().0 != k);
        lemma_lookup_absent(s.drop_last(), k);
    }
}

pub proof fn lemma_lookup_present<K, V>(s: Seq<(K, V)>, k: K)
    requires
        lookup(s, k) is Some,
    ensures
        exists|i: int| 0 <= i < s.len() && #[trigger] s[i].0 == k && s[i].1 == lookup(s, k)->0,
    decreases s.len(),
{
    if s.last().0 == k {
        assert(s[s.len() - 1].0 == k);
    } else {
        lemma_lookup_present(s.drop_last(), k);
        let i = choose|i: int| 0 <= i < s.drop_last().len() && #[trigger] s.drop_last()[i].0 == k && s.drop_last()[i].1 == lookup(s.drop_last(), k)->0;
        assert(s[i].0 == k);
    }
}

/// With distinct keys, the pair at any index is what its key looks up.
pub proof fn lemma_lookup_at<K, V>(s: Seq<(K, V)>, i: int)
    requires
        distinct_keys(s),
        0 <= i < s.len(),
    ensures
        lookup(s, s[i].0) == Some(s[i].1),
    decreases s.len(),
{
    if i < s.len() - 1 {
        assert(s.last().0 != s[i].0);
        assert(distinct_keys(s.drop_last()));
        assert(s.drop_last()[i] == s[i]);
        lemma_lookup_at(s.drop_last(), i);
    }
}

pub proof fn lemma_lookup_push<K, V>(s: Seq<(K, V)>, p: (K, V), k: K)
    ensures
        lookup(s.push(p), k) == if p.0 == k { Some(p.1) } else { lookup(s, k) },
{
    assert(s.push(p).drop_last() =~= s);
}

/// Replacing the value of a pair changes what its key looks up and nothing else.
pub proof fn lemma_lookup_update<K, V>(s: Seq<(K, V)>, i: int, v: V, k: K)
    requires
        distinct_keys(s),
        0 <= i < s.len(),
    ensures
        lookup(s.update(i, (s[i].0, v)), k) == if s[i].0 == k { Some(v) } else { lookup(s, k) },
        distinct_keys(s.update(i, (s[i].0, v))),
    decreases s.len(),
{
    let t = s.update(i, (s[i].0, v));
    if i == s.len() - 1 {
        assert(t.drop_last() =~= s.drop_last());
    } else {
        assert(t.drop_last() =~= s.drop_last().update(i, (s[i].0, v)));
        assert(distinct_keys(s.drop_last()));
        assert(s.drop_last()[i] == s[i]);
        lemma_lookup_update(s.drop_last(), i, v, k);
        assert(s.last().0 != s[i].0);
    }
}

/// Pushing a pair whose key is new keeps the keys distinct.
pub proof fn lemma_push_distinct<K, V>(s: Seq<(K, V)>, p: (K, V))
    requires
        distinct_keys(s),
        lookup(s, p.0) is None,
    ensures
        distinct_keys(s.push(p)),
{
    if exists|i: int| 0 <= i < s.len() && #[trigger] s[i].0 == p.0 {
        let i = choose|i: int| 0 <= i < s.len() && #[trigger] s[i].0 == p.0;
        lemma_lookup_at(s, i);
    }
}

/// Removing one pair keeps the keys distinct and forgets only its key.
pub proof fn lemma_lookup_remove<K, V>(s: Seq<(K, V)>, i: int, k: K)
    requires
        distinct_keys(s),
        0 <= i < s.len(),
    ensures
        distinct_keys(s.remove(i)),
        lookup(s.remove(i), k) == if s[i].0 == k { None } else { lookup(s, k) },
    decreases s.len(),
{
    let t = s.remove(i);
    assert(distinct_keys(t));
    if s[i].0 == k {
        assert forall|j: int| 0 <= j < t.len() implies #[trigger] t[j].0 != k by {
            if j < i {
                assert(t[j] == s[j]);
            } else {
                assert(t[j] == s[j + 1]);
            }
        }
        lemma_lookup_absent(t, k);
    } else if i == s.len() - 1 {
        assert(t =~= s.drop_last());
    } else {
        assert(t.drop_last() =~= s.drop_last().remove(i));
        assert(t.last() == s.last());
        assert(distinct_keys(s.drop_last()));
        assert(s.drop_last()[i] == s[i]);
        lemma_lookup_remove(s.drop_last(), i, k);
    }
}


/// Pushing a pair sets its key in the map.
pub proof fn lemma_map_push<K, V>(s: Seq<(K, V)>, p: (K, V))
    ensures
        as_map(s.push(p)) == as_map(s).insert(p.0, p.1),
{
    assert forall|k: K| #![trigger as_map(s.push(p)).contains_key(k)] as_map(s.push(p)).contains_key(k) == as_map(s).insert(p.0, p.1).contains_key(k) by {
        lemma_lookup_push(s, p, k);
    }
    assert forall|k: K| #![trigger as_map(s.push(p))[k]] as_map(s.push(p)).contains_key(k) ==> as_map(s.push(p))[k] == as_map(s).insert(p.0, p.1)[k] by {
        lemma_lookup_push(s, p, k);
    }
    assert(as_map(s.push(p)) =~= as_map(s).insert(p.0, p.1));
}

/// Replacing the value of a pair sets its key in the map.
pub proof fn lemma_map_update<K, V>(s: Seq<(K, V)>, i: int, v: V)
    requires
        distinct_keys(s),
        0 <= i < s.len(),
    ensures
        as_map(s.update(i, (s[i].0, v))) == as_map(s).insert(s[i].0, v),
        distinct_keys(s.update(i, (s[i].0, v))),
{
    let t = s.update(i, (s[i].0, v));
    lemma_lookup_update(s, i, v, s[i].0);
    assert forall|k: K| #![trigger as_map(t).contains_key(k)] as_map(t).contains_key(k) == as_map(s).insert(s[i].0, v).contains_key(k) by {
        lemma_lookup_update(s, i, v, k);
    }
    assert forall|k: K| #![trigger as_map(t)[k]] as_map(t).contains_key(k) ==> as_map(t)[k] == as_map(s).insert(s[i].0, v)[k] by {
        lemma_lookup_update(s, i, v, k);
    }
    assert(as_map(t) =~= as_map(s).insert(s[i].0, v));
}

/// Removing a pair removes its key from the map.
pub proof fn lemma_map_remove<K, V>(s: Seq<(K, V)>, i: int)
    requires
        distinct_keys(s),
        0 <= i < s.len(),
    ensures
        as_map(s.remove(i)) == as_map(s).remove(s[i].0),
        distinct_keys(s.remove(i)),
{
    let t = s.remove(i);
    lemma_lookup_remove(s, i, s[i].0);
    assert forall|k: K| #![trigger as_map(t).contains_key(k)] as_map(t).contains_key(k) == as_map(s).remove(s[i].0).contains_key(k) by {
        lemma_lookup_remove(s, i, k);
    }
    assert forall|k: K| #![trigger as_map(t)[k]] as_map(t).contains_key(k) ==> as_map(t)[k] == as_map(s).remove(s[i].0)[k] by {
        lemma_lookup_remove(s, i, k);
    }
    assert(as_map(t) =~= as_map(s).remove(s[i].0));
}

/// With distinct keys, the map holds exactly the pairs of the list.
pub proof fn lemma_map_index<K, V>(s: Seq<(K, V)>, i: int)
    requires
        distinct_keys(s),
        0 <= i < s.len(),
    ensures
        as_map(s).contains_key(s[i].0),
        as_map(s)[s[i].0] == s[i].1,
{
    lemma_lookup_at(s, i);
}

/// A key of the map is the key of some pair.
pub proof fn lemma_map_key<K, V>(s: Seq<(K, V)>, k: K)
    requires
        as_map(s).contains_key(k),
    ensures
        exists|i: int| 0 <= i < s.len() && #[trigger] s[i].0 == k && s[i].1 == as_map(s)[k],
{
    lemma_lookup_present(s, k);
}

/// A key no pair carries is not in the map.
pub proof fn lemma_map_absent<K, V>(s: Seq<(K, V)>, k: K)
    requires
        forall|i: int| 0 <= i < s.len() ==> #[trigger] s[i].0 != k,
    ensures
        !as_map(s).contains_key(k),
{
    lemma_lookup_absent(s, k);
}


/// The keys of a list of pairs, seen as a set, are finite.
pub proof fn lemma_map_finite<K, V>(s: Seq<(K, V)>)
    ensures
        as_map(s).dom().finite(),
    decreases s.len(),
{
    if s.len() == 0 {
        assert(as_map(s).dom() =~= Set::<K>::empty());
    } else {
        let t = s.drop_last();
        lemma_map_finite(t);
        assert(t.push(s.last()) =~= s);
        lemma_map_push(t, s.last());
    }
}

/// Counting the pairs whose key satisfies `q` counts the keys of the map that
/// satisfy `q`.
pub proof fn lemma_filter_count<K, V>(s: Seq<(K, V)>, q: spec_fn(K) -> bool)
    requires
        distinct_keys(s),
    ensures
        s.filter(|p: (K, V)| q(p.0)).len() == as_map(s).dom().filter(q).len(),
    decreases s.len(),
{
    let f = |p: (K, V)| q(p.0);
    if s.len() == 0 {
        assert(as_map(s).dom().filter(q) =~= Set::<K>::empty());
        assert(s.filter(f) =~= Seq::<(K, V)>::empty()) by {
            reveal_with_fuel(Seq::filter, 1);
        }
    } else {
        let t = s.drop_last();
        let p = s.last();
        assert(distinct_keys(t));
        lemma_filter_count(t, q);
        assert(t.push(p) =~= s);
        lemma_map_push(t, p);
        lemma_map_finite(t);
        if as_map(t).contains_key(p.0) {
            lemma_map_key(t, p.0);
            let i = choose|i: int| 0 <= i < t.len() && #[trigger] t[i].0 == p.0 && t[i].1 == as_map(t)[p.0];
            assert(s[i].0 == s[s.len() - 1].0);
        }
        assert(s.filter(f) == if f(p) { t.filter(f).push(p) } else { t.filter(f) }) by {
            reveal_with_fuel(Seq::filter, 1);
            assert(s.drop_last() =~= t);
        }
        if q(p.0) {
            assert(as_map(s).dom().filter(q) =~= as_map(t).dom().filter(q).insert(p.0));
            assert(!as_map(t).dom().filter(q).contains(p.0));
        } else {
            assert(as_map(s).dom().filter(q) =~= as_map(t).dom().filter(q));
        }
    }
}


/// Keeping only the pairs whose key satisfies `keep` keeps exactly those keys
/// of the map.
pub proof fn lemma_lookup_filter<K, V>(s: Seq<(K, V)>, keep: spec_fn(K) -> bool, k: K)
    ensures
        lookup(s.filter(|p: (K, V)| keep(p.0)), k) == if keep(k) { lookup(s, k) } else { None },
    decreases s.len(),
{
    let f = |p: (K, V)| keep(p.0);
    if s.len() == 0 {
        assert(s.filter(f) =~= Seq::<(K, V)>::empty()) by {
            reveal_with_fuel(Seq::filter, 1);
        }
    } else {
        let t = s.drop_last();
        lemma_lookup_filter(t, keep, k);
        assert(s.filter(f) == if f(s.last()) { t.filter(f).push(s.last()) } else { t.filter(f) }) by {
            reveal_with_fuel(Seq::filter, 1);
        }
        if f(s.last()) {
            lemma_lookup_push(t.filter(f), s.last(), k);
        }
    }
}

/// A list with distinct keys keeps them distinct after filtering.
pub proof fn lemma_filter_distinct<K, V>(s: Seq<(K, V)>, keep: spec_fn(K) -> bool)
    requires
        distinct_keys(s),
    ensures
        distinct_keys(s.filter(|p: (K, V)| keep(p.0))),
    decreases s.len(),
{
    let f = |p: (K, V)| keep(p.0);
    if s.len() == 0 {
        assert(s.filter(f) =~= Seq::<(K, V)>::empty()) by {
            reveal_with_fuel(Seq::filter, 1);
        }
    } else {
        let t = s.drop_last();
        assert(distinct_keys(t));
        lemma_filter_distinct(t, keep);
        assert(s.filter(f) == if f(s.last()) { t.filter(f).push(s.last()) } else { t.filter(f) }) by {
            reveal_with_fuel(Seq::filter, 1);
        }
        if f(s.last()) {
            assert forall|i: int| 0 <= i < t.len() implies #[trigger] t[i].0 != s.last().0 by {
                assert(s[i].0 != s[s.len() - 1].0);
            }
            lemma_lookup_absent(t, s.last().0);
            lemma_lookup_filter(t, keep, s.last().0);
            lemma_push_distinct(t.filter(f), s.last());
        }
    }
}

} // verus!
