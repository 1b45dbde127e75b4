//! Association-list machinery shared by the header map and the
//! query-parameter map: the mathematical map a list of (name, value) pairs
//! denotes, and how membership and lookup relate to the list.

use vstd::prelude::*;

verus! {

/// The (name, value) views of a pair list.
pub open spec fn entry_views(s: Seq<(String, String)>) -> Seq<(Seq<char>, Seq<char>)> {
    s.map_values(|p: (String, String)| (p.0@, p.1@))
}

/// Pairwise-distinct keys.
pub open spec fn unique_keys<K, V>(s: Seq<(K, V)>) -> bool {
    forall|i: int, j: int| 0 <= i < j < s.len() ==> (#[trigger] s[i]).0 != (#[trigger] s[j]).0
}

/// The map a pair list denotes; a later pair overrides an earlier one.
pub open spec fn map_of_entries<K, V>(s: Seq<(K, V)>) -> Map<K, V>
    decreases s.len(),
{
    if s.len() == 0 {
        Map::empty()
    } else {
        map_of_entries(s.drop_last()).insert(s.last().0, s.last().1)
    }
}

/// The map holds a key exactly when some pair carries it.
pub proof fn lemma_map_of_entries_contains<K, V>(s: Seq<(K, V)>, k: K)
    ensures
        map_of_entries(s).contains_key(k) <==> exists|i: int|
            0 <= i < s.len() && (#[trigger] s[i]).0 == k,
    decreases s.len(),
{
    if s.len() > 0 {
        lemma_map_of_entries_contains(s.drop_last(), k);
        if s.last().0 == k {
            assert((s[s.len() - 1]).0 == k);
        } else {
            if exists|i: int| 0 <= i < s.len() && (#[trigger] s[i]).0 == k {
                let i = choose|i: int| 0 <= i < s.len() && (#[trigger] s[i]).0 == k;
                assert(i < s.len() - 1);
                assert(s.drop_last()[i] == s[i]);
            }
            if exists|i: int| 0 <= i < s.drop_last().len() && (#[trigger] s.drop_last()[i]).0
                == k {
                let i = choose|i: int|
                    0 <= i < s.drop_last().len() && (#[trigger] s.drop_last()[i]).0 == k;
                assert(s[i] == s.drop_last()[i]);
            }
        }
    }
}

/// Under distinct keys, the map sends each pair's key to its value.
pub proof fn lemma_map_of_entries_get<K, V>(s: Seq<(K, V)>, i: int)
    requires
        unique_keys(s),
        0 <= i < s.len(),
    ensures
        map_of_entries(s).contains_key(s[i].0),
        map_of_entries(s)[s[i].0] == s[i].1,
    decreases s.len(),
{
    if i == s.len() - 1 {
    } else {
        assert forall|j1: int, j2: int| 0 <= j1 < j2 < s.drop_last().len() implies (#[trigger] s
            .drop_last()[j1]).0 != (#[trigger] s.drop_last()[j2]).0 by {
            assert(s.drop_last()[j1] == s[j1]);
            assert(s.drop_last()[j2] == s[j2]);
        }
        lemma_map_of_entries_get(s.drop_last(), i);
        assert(s.drop_last()[i] == s[i]);
        assert(s[i].0 != s[s.len() - 1].0);
    }
}

/// When `t` holds exactly the pairs of `s` except that the pair keyed `k`
/// is (`k`, `v`), the map of `t` is the map of `s` with `k` set to `v`.
pub proof fn lemma_map_of_entries_update<K, V>(
    s: Seq<(K, V)>,
    t: Seq<(K, V)>,
    k: K,
    v: V,
)
    requires
        unique_keys(s),
        unique_keys(t),
        forall|j: int| 0 <= j < t.len() ==> (#[trigger] t[j]) == (k, v) || (t[j].0 != k
            && exists|j2: int| 0 <= j2 < s.len() && #[trigger] s[j2] == t[j]),
        exists|j: int| 0 <= j < t.len() && #[trigger] t[j] == (k, v),
        forall|j2: int| 0 <= j2 < s.len() && (#[trigger] s[j2]).0 != k ==> exists|j: int|
            0 <= j < t.len() && #[trigger] t[j] == s[j2],
    ensures
        map_of_entries(t) == map_of_entries(s).insert(k, v),
{
    let mt = map_of_entries(t);
    let ms = map_of_entries(s);
    assert forall|key: K| #![auto] mt.contains_key(key) <==> ms.insert(
        k,
        v,
    ).contains_key(key) by {
        lemma_map_of_entries_contains(t, key);
        lemma_map_of_entries_contains(s, key);
        if key == k {
        } else {
            if exists|i: int| 0 <= i < t.len() && (#[trigger] t[i]).0 == key {
                let i = choose|i: int| 0 <= i < t.len() && (#[trigger] t[i]).0 == key;
                let j2 = choose|j2: int| 0 <= j2 < s.len() && #[trigger] s[j2] == t[i];
                assert(s[j2].0 == key);
            }
            if exists|i: int| 0 <= i < s.len() && (#[trigger] s[i]).0 == key {
                let i = choose|i: int| 0 <= i < s.len() && (#[trigger] s[i]).0 == key;
                let j = choose|j: int| 0 <= j < t.len() && #[trigger] t[j] == s[i];
                assert(t[j].0 == key);
            }
        }
    }
    assert forall|key: K| #![auto] mt.contains_key(key) implies mt[key] == ms.insert(
        k,
        v,
    )[key] by {
        lemma_map_of_entries_contains(t, key);
        let i = choose|i: int| 0 <= i < t.len() && (#[trigger] t[i]).0 == key;
        lemma_map_of_entries_get(t, i);
        if key == k {
            let j = choose|j: int| 0 <= j < t.len() && #[trigger] t[j] == (k, v);
            assert(t[i] == t[j]) by {
                if i != j {
                    assert(t[i].0 != t[j].0);
                }
            }
        } else {
            let j2 = choose|j2: int| 0 <= j2 < s.len() && #[trigger] s[j2] == t[i];
            lemma_map_of_entries_get(s, j2);
        }
    }
    assert(mt =~= ms.insert(k, v));
}

} // verus!
