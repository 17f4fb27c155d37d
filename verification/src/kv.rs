//! Keyed sequences as maps.
//!
//! Every collection in the store is a vector of `(key, value)` pairs with
//! pairwise-distinct keys.  `map_of` interprets such a sequence as a
//! `Map` from key views to value views; the lemmas here relate sequence
//! operations (lookup, push, point update) to the map interpretation.

use vstd::prelude::*;

verus! {

/// No two entries share a key view.
pub open spec fn unique_keys<K: View, V>(s: Seq<(K, V)>) -> bool {
    forall|i: int, j: int| 0 <= i < j < s.len() ==> s[i].0@ != s[j].0@
}

/// The map an entry sequence stands for; later entries win.
pub open spec fn map_of<K: View, V: View>(s: Seq<(K, V)>) -> Map<K::V, V::V>
    decreases s.len(),
{
    if s.len() == 0 {
        Map::empty()
    } else {
        map_of(s.drop_last()).insert(s.last().0@, s.last().1@)
    }
}

/// The interpretation of a finite entry sequence is a finite map.
pub proof fn lemma_map_of_finite<K: View, V: View>(s: Seq<(K, V)>)
    ensures
        map_of(s).dom().finite(),
    decreases s.len(),
{
    if s.len() > 0 {
        lemma_map_of_finite(s.drop_last());
    }
}

/// A key is in the map exactly when some entry carries it.
pub proof fn lemma_map_of_contains<K: View, V: View>(s: Seq<(K, V)>, k: K::V)
    ensures
        map_of(s).contains_key(k) <==> exists|i: int| 0 <= i < s.len() && s[i].0@ == k,
    decreases s.len(),
{
    if s.len() > 0 {
        lemma_map_of_contains(s.drop_last(), k);
        if s.last().0@ == k {
            assert(s[s.len() - 1].0@ == k);
        } else if map_of(s).contains_key(k) {
            let i = choose|i: int| 0 <= i < s.drop_last().len() && s.drop_last()[i].0@ == k;
            assert(s[i].0@ == k);
        } else {
            assert forall|i: int| 0 <= i < s.len() implies s[i].0@ != k by {
                if i < s.len() - 1 {
                    assert(s.drop_last()[i].0@ == s[i].0@);
                }
            }
        }
    }
}

/// With unique keys, the entry carrying a key gives the map's value there.
pub proof fn lemma_map_of_index<K: View, V: View>(s: Seq<(K, V)>, i: int)
    requires
        unique_keys(s),
        0 <= i < s.len(),
    ensures
        map_of(s).contains_key(s[i].0@),
        map_of(s)[s[i].0@] == s[i].1@,
    decreases s.len(),
{
    lemma_map_of_contains(s, s[i].0@);
    if i < s.len() - 1 {
        assert(s.last().0@ != s[i].0@);
        assert(unique_keys(s.drop_last())) by {
            assert forall|x: int, y: int|
                0 <= x < y < s.drop_last().len() implies s.drop_last()[x].0@
                != s.drop_last()[y].0@ by {
                assert(s.drop_last()[x].0@ == s[x].0@ && s.drop_last()[y].0@ == s[y].0@);
            }
        }
        assert(s.drop_last()[i] == s[i]);
        lemma_map_of_index(s.drop_last(), i);
    }
}

/// Entry sequences that agree view for view stand for the same map.
pub proof fn lemma_map_of_congruent<K: View, V: View>(e1: Seq<(K, V)>, e2: Seq<(K, V)>)
    requires
        e1.len() == e2.len(),
        forall|i: int|
            0 <= i < e1.len() ==> (#[trigger] e1[i]).0@ == e2[i].0@ && e1[i].1@ == e2[i].1@,
    ensures
        map_of(e1) == map_of(e2),
    decreases e1.len(),
{
    if e1.len() > 0 {
        assert(forall|i: int|
            0 <= i < e1.len() - 1 ==> e1.drop_last()[i] == e1[i] && e2.drop_last()[i] == e2[i]);
        lemma_map_of_congruent(e1.drop_last(), e2.drop_last());
        assert(e1.last() == e1[e1.len() - 1] && e2.last() == e2[e1.len() - 1]);
    }
}

/// Appending a fresh entry inserts its view pair into the map.
pub proof fn lemma_map_of_push<K: View, V: View>(s: Seq<(K, V)>, e: (K, V))
    ensures
        map_of(s.push(e)) == map_of(s).insert(e.0@, e.1@),
{
    assert(s.push(e).drop_last() =~= s);
    assert(s.push(e).last() == e);
}

/// Updating the entry that carries a key, keeping its key, updates the map
/// at that key alone.
pub proof fn lemma_map_of_update<K: View, V: View>(s: Seq<(K, V)>, i: int, e: (K, V))
    requires
        unique_keys(s),
        0 <= i < s.len(),
        e.0@ == s[i].0@,
    ensures
        unique_keys(s.update(i, e)),
        map_of(s.update(i, e)) =~= map_of(s).insert(e.0@, e.1@),
    decreases s.len(),
{
    let t = s.update(i, e);
    assert forall|x: int, y: int| 0 <= x < y < t.len() implies t[x].0@ != t[y].0@ by {
        assert(t[x].0@ == s[x].0@ && t[y].0@ == s[y].0@);
    }
    if i == s.len() - 1 {
        assert(t.drop_last() =~= s.drop_last());
        assert(t.last() == e);
    } else {
        assert(t.drop_last() =~= s.drop_last().update(i, e));
        assert(s.drop_last()[i] == s[i]);
        assert(unique_keys(s.drop_last())) by {
            assert forall|x: int, y: int|
                0 <= x < y < s.drop_last().len() implies s.drop_last()[x].0@
                != s.drop_last()[y].0@ by {
                assert(s.drop_last()[x].0@ == s[x].0@ && s.drop_last()[y].0@ == s[y].0@);
            }
        }
        lemma_map_of_update(s.drop_last(), i, e);
        assert(t.last() == s.last());
        assert(s.last().0@ != e.0@);
    }
}

} // verus!
