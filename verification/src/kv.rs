//! Association lists and the maps they denote.
//!
//! The state-diff assembler keeps its per-contract maps as vectors of
//! key-value pairs with pairwise-distinct keys; contracts over them speak of
//! the denoted `Map`. This module defines that denotation and the lemmas that
//! relate in-place updates and appends of the list to `Map::insert`.

use vstd::prelude::*;

verus! {

/// The map an association list denotes; a later entry for a key wins.
pub open spec fn kv_view<K, V>(s: Seq<(K, V)>) -> Map<K, V>
    decreases s.len(),
{
    if s.len() == 0 {
        Map::empty()
    } else {
        kv_view(s.drop_last()).insert(s.last().0, s.last().1)
    }
}

/// No two entries share a key.
pub open spec fn kv_distinct<K, V>(s: Seq<(K, V)>) -> bool {
    forall|i: int, j: int|
        0 <= i < j < s.len() ==> (#[trigger] s[i]).0 != (#[trigger] s[j]).0
}

/// A key is in the denoted map exactly when some entry carries it.
pub proof fn lemma_kv_view_contains<K, V>(s: Seq<(K, V)>, k: K)
    ensures
        kv_view(s).contains_key(k) <==> exists|i: int| 0 <= i < s.len() && (#[trigger] s[i]).0 == k,
    decreases s.len(),
{
    if s.len() > 0 {
        lemma_kv_view_contains(s.drop_last(), k);
        if s.last().0 == k {
            assert((s[s.len() - 1]).0 == k);
        } else {
            if exists|i: int| 0 <= i < s.drop_last().len() && (#[trigger] s.drop_last()[i]).0 == k {
                let i = choose|i: int|
                    0 <= i < s.drop_last().len() && (#[trigger] s.drop_last()[i]).0 == k;
                assert((s[i]).0 == k);
            }
            if exists|i: int| 0 <= i < s.len() && (#[trigger] s[i]).0 == k {
                let i = choose|i: int| 0 <= i < s.len() && (#[trigger] s[i]).0 == k;
                assert(i < s.len() - 1);
                assert((s.drop_last()[i]).0 == k);
            }
        }
    }
}

/// With distinct keys, the denoted map sends each entry's key to its value.
pub proof fn lemma_kv_view_index<K, V>(s: Seq<(K, V)>, i: int)
    requires
        kv_distinct(s),
        0 <= i < s.len(),
    ensures
        kv_view(s).contains_key(s[i].0),
        kv_view(s)[s[i].0] == s[i].1,
    decreases s.len(),
{
    if i == s.len() - 1 {
    } else {
        assert(kv_distinct(s.drop_last()));
        lemma_kv_view_index(s.drop_last(), i);
        assert(s.drop_last()[i] == s[i]);
        assert(s[i].0 != s.last().0);
    }
}

/// Replacing the entry that carries a key denotes `insert` of its new value.
pub proof fn lemma_kv_view_update<K, V>(s: Seq<(K, V)>, i: int, k: K, v: V)
    requires
        kv_distinct(s),
        0 <= i < s.len(),
        s[i].0 == k,
    ensures
        kv_distinct(s.update(i, (k, v))),
        kv_view(s.update(i, (k, v))) == kv_view(s).insert(k, v),
    decreases s.len(),
{
    let t = s.update(i, (k, v));
    assert forall|a: int, b: int| 0 <= a < b < t.len() implies (#[trigger] t[a]).0
        != (#[trigger] t[b]).0 by {
        assert((s[a]).0 == t[a].0);
        assert((s[b]).0 == t[b].0);
    }
    if i == s.len() - 1 {
        assert(t.drop_last() =~= s.drop_last());
        assert(kv_view(t) == kv_view(s.drop_last()).insert(k, v));
        assert(kv_view(s.drop_last()).insert(k, s[i].1).insert(k, v) =~= kv_view(
            s.drop_last(),
        ).insert(k, v));
    } else {
        assert(kv_distinct(s.drop_last()));
        assert(s.drop_last()[i] == s[i]);
        lemma_kv_view_update(s.drop_last(), i, k, v);
        assert(t.drop_last() =~= s.drop_last().update(i, (k, v)));
        assert(t.last() == s.last());
        // the tail's key differs from `k`, so the two inserts commute
        assert(s[i].0 != s.last().0);
        assert(kv_view(s.drop_last()).insert(k, v).insert(s.last().0, s.last().1) =~= kv_view(
            s.drop_last(),
        ).insert(s.last().0, s.last().1).insert(k, v));
    }
}

/// Appending an entry denotes `insert`; a fresh key keeps the keys distinct.
pub proof fn lemma_kv_view_push<K, V>(s: Seq<(K, V)>, k: K, v: V)
    requires
        kv_distinct(s),
        forall|i: int| 0 <= i < s.len() ==> (#[trigger] s[i]).0 != k,
    ensures
        kv_distinct(s.push((k, v))),
        kv_view(s.push((k, v))) == kv_view(s).insert(k, v),
{
    let t = s.push((k, v));
    assert forall|a: int, b: int| 0 <= a < b < t.len() implies (#[trigger] t[a]).0
        != (#[trigger] t[b]).0 by {
        if b < t.len() - 1 {
            assert(t[a] == s[a] && t[b] == s[b]);
        } else {
            assert(t[a] == s[a]);
        }
    }
    assert(t.drop_last() =~= s);
    assert(t.last() == (k, v));
}

/// A key no entry carries is not in the denoted map.
pub proof fn lemma_kv_view_absent<K, V>(s: Seq<(K, V)>, k: K)
    requires
        forall|i: int| 0 <= i < s.len() ==> (#[trigger] s[i]).0 != k,
    ensures
        !kv_view(s).contains_key(k),
{
    lemma_kv_view_contains(s, k);
}

} // verus!
