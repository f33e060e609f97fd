//! Association sequences and their map abstraction.
//!
//! The record store keeps entries and fields as vectors of pairs with
//! pairwise-distinct keys; contracts speak about the `Map` such a sequence
//! denotes. The lemmas here relate sequence edits to map edits.

use vstd::prelude::*;

verus! {

/// The map denoted by an association sequence; on duplicate keys the later
/// pair wins.
pub open spec fn assoc_map<K, V>(s: Seq<(K, V)>) -> Map<K, V>
    decreases s.len(),
{
    if s.len() == 0 {
        Map::empty()
    } else {
        assoc_map(s.drop_last()).insert(s.last().0, s.last().1)
    }
}

/// All keys of the sequence are pairwise distinct.
pub open spec fn keys_unique<K, V>(s: Seq<(K, V)>) -> bool {
    forall|i: int, j: int| 0 <= i < j < s.len() ==> (#[trigger] s[i]).0 != (#[trigger] s[j]).0
}

pub proof fn lemma_assoc_contains<K, V>(s: Seq<(K, V)>, k: K)
    ensures
        assoc_map(s).contains_key(k) <==> exists|i: int| 0 <= i < s.len() && (#[trigger] s[i]).0 == k,
    decreases s.len(),
{
    if s.len() > 0 {
        lemma_assoc_contains(s.drop_last(), k);
        if s.last().0 == k {
            assert(s[s.len() - 1].0 == k);
        } else if assoc_map(s).contains_key(k) {
            let i = choose|i: int| 0 <= i < s.len() - 1 && (#[trigger] s.drop_last()[i]).0 == k;
            assert(s[i].0 == k);
        } else if exists|i: int| 0 <= i < s.len() && (#[trigger] s[i]).0 == k {
            let i = choose|i: int| 0 <= i < s.len() && (#[trigger] s[i]).0 == k;
            assert(s.drop_last()[i].0 == k);
        }
    }
}

pub proof fn lemma_assoc_at<K, V>(s: Seq<(K, V)>, i: int)
    requires
        keys_unique(s),
        0 <= i < s.len(),
    ensures
        assoc_map(s).contains_key(s[i].0),
        assoc_map(s)[s[i].0] == s[i].1,
    decreases s.len(),
{
    if i == s.len() - 1 {
        assert(s.last() == s[i]);
    } else {
        assert(keys_unique(s.drop_last())) by {
            assert(forall|a: int, b: int|
                0 <= a < b < s.len() - 1 ==> (#[trigger] s.drop_last()[a]) == s[a]
                    && (#[trigger] s.drop_last()[b]) == s[b]);
        }
        assert(s.drop_last()[i] == s[i]);
        lemma_assoc_at(s.drop_last(), i);
        assert(s.last().0 != s[i].0);
    }
}

/// Replacing the pair at `i` by one with the same key edits the map at that
/// key only.
pub proof fn lemma_assoc_update<K, V>(s: Seq<(K, V)>, i: int, p: (K, V))
    requires
        keys_unique(s),
        0 <= i < s.len(),
        p.0 == s[i].0,
    ensures
        assoc_map(s.update(i, p)) == assoc_map(s).insert(p.0, p.1),
        keys_unique(s.update(i, p)),
    decreases s.len(),
{
    let t = s.update(i, p);
    assert(keys_unique(t)) by {
        assert(forall|a: int| 0 <= a < s.len() && a != i ==> (#[trigger] t[a]) == s[a]);
        assert(t[i].0 == s[i].0);
    }
    if i == s.len() - 1 {
        assert(t.drop_last() =~= s.drop_last());
        assert(t.last() == p);
        assert(assoc_map(t) == assoc_map(s.drop_last()).insert(p.0, p.1));
        assert(assoc_map(s) == assoc_map(s.drop_last()).insert(s.last().0, s.last().1));
        assert(assoc_map(s.drop_last()).insert(p.0, p.1) =~= assoc_map(s.drop_last()).insert(
            s.last().0,
            s.last().1,
        ).insert(p.0, p.1));
    } else {
        assert(keys_unique(s.drop_last())) by {
            assert(forall|a: int, b: int|
                0 <= a < b < s.len() - 1 ==> (#[trigger] s.drop_last()[a]) == s[a]
                    && (#[trigger] s.drop_last()[b]) == s[b]);
        }
        assert(t.drop_last() =~= s.drop_last().update(i, p));
        lemma_assoc_update(s.drop_last(), i, p);
        assert(t.last() == s.last());
        // the two inserts touch different keys, so they commute
        assert(assoc_map(t) == assoc_map(s.drop_last()).insert(p.0, p.1).insert(
            s.last().0,
            s.last().1,
        ));
        assert(s.last().0 != p.0);
        assert(assoc_map(s.drop_last()).insert(p.0, p.1).insert(s.last().0, s.last().1)
            =~= assoc_map(s.drop_last()).insert(s.last().0, s.last().1).insert(p.0, p.1));
    }
}

/// Removing the pair at `i` removes exactly its key from the map.
pub proof fn lemma_assoc_remove<K, V>(s: Seq<(K, V)>, i: int)
    requires
        keys_unique(s),
        0 <= i < s.len(),
    ensures
        assoc_map(s.remove(i)) == assoc_map(s).remove(s[i].0),
        keys_unique(s.remove(i)),
    decreases s.len(),
{
    let t = s.remove(i);
    assert(keys_unique(t)) by {
        assert(forall|a: int| 0 <= a < i ==> (#[trigger] t[a]) == s[a]);
        assert(forall|a: int| i <= a < s.len() - 1 ==> (#[trigger] t[a]) == s[a + 1]);
    }
    if i == s.len() - 1 {
        assert(t =~= s.drop_last());
        assert(!assoc_map(s.drop_last()).contains_key(s.last().0)) by {
            lemma_assoc_contains(s.drop_last(), s.last().0);
        }
        lemma_assoc_not_contains_remove(s.drop_last(), s[i].0);
        assert(assoc_map(s).remove(s.last().0) =~= assoc_map(s.drop_last()));
    } else {
        assert(keys_unique(s.drop_last())) by {
            assert(forall|a: int, b: int|
                0 <= a < b < s.len() - 1 ==> (#[trigger] s.drop_last()[a]) == s[a]
                    && (#[trigger] s.drop_last()[b]) == s[b]);
        }
        assert(t.drop_last() =~= s.drop_last().remove(i));
        assert(t.last() == s.last());
        lemma_assoc_remove(s.drop_last(), i);
        assert(s.drop_last()[i] == s[i]);
        assert(assoc_map(t) == assoc_map(s.drop_last()).remove(s[i].0).insert(
            s.last().0,
            s.last().1,
        ));
        assert(s.last().0 != s[i].0);
        assert(assoc_map(s.drop_last()).remove(s[i].0).insert(s.last().0, s.last().1)
            =~= assoc_map(s.drop_last()).insert(s.last().0, s.last().1).remove(s[i].0));
    }
}

proof fn lemma_assoc_not_contains_remove<K, V>(s: Seq<(K, V)>, k: K)
    requires
        !assoc_map(s).contains_key(k),
    ensures
        assoc_map(s).remove(k) == assoc_map(s),
{
    assert(assoc_map(s).remove(k) =~= assoc_map(s));
}

/// A one-pair sequence denotes a one-key map.
pub proof fn lemma_assoc_singleton<K, V>(s: Seq<(K, V)>)
    requires
        s.len() == 1,
    ensures
        assoc_map(s) == Map::<K, V>::empty().insert(s[0].0, s[0].1),
{
    assert(s.drop_last() =~= Seq::<(K, V)>::empty());
    assert(assoc_map(s.drop_last()) == Map::<K, V>::empty());
    assert(s.last() == s[0]);
}

/// Appending a fresh pair inserts its key.
pub proof fn lemma_assoc_push<K, V>(s: Seq<(K, V)>, p: (K, V))
    requires
        keys_unique(s),
        !assoc_map(s).contains_key(p.0),
    ensures
        assoc_map(s.push(p)) == assoc_map(s).insert(p.0, p.1),
        keys_unique(s.push(p)),
{
    assert(s.push(p).drop_last() =~= s);
    assert(s.push(p).last() == p);
    assert(keys_unique(s.push(p))) by {
        lemma_assoc_contains(s, p.0);
        assert(forall|a: int| 0 <= a < s.len() ==> (#[trigger] s.push(p)[a]) == s[a]);
        assert(s.push(p)[s.len() as int] == p);
    }
}

} // verus!
