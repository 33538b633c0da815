//! Association sequences keyed by byte strings: the ghost model behind the
//! bank's balance table and similar keyed state, with the lemmas that turn
//! in-place updates and appends into map operations.

use vstd::prelude::*;

verus! {

/// Whether some pair of `s` has key `k`.
pub open spec fn assoc_has<V>(s: Seq<(Seq<u8>, V)>, k: Seq<u8>) -> bool {
    exists|i: int| 0 <= i < s.len() && (#[trigger] s[i]).0 == k
}

/// The index of the pair with key `k`, when one exists.
pub open spec fn assoc_index<V>(s: Seq<(Seq<u8>, V)>, k: Seq<u8>) -> int {
    choose|i: int| 0 <= i < s.len() && (#[trigger] s[i]).0 == k
}

/// No key occurs twice.
pub open spec fn assoc_unique<V>(s: Seq<(Seq<u8>, V)>) -> bool {
    forall|i: int, j: int| 0 <= i < j < s.len() ==> (#[trigger] s[i]).0 != (#[trigger] s[j]).0
}

/// The map an association sequence denotes.
pub open spec fn assoc_to_map<V>(s: Seq<(Seq<u8>, V)>) -> Map<Seq<u8>, V> {
    Map::new(|k: Seq<u8>| assoc_has(s, k), |k: Seq<u8>| s[assoc_index(s, k)].1)
}

/// With unique keys, the pair at index `i` is the one the map reads.
pub proof fn lemma_assoc_index_unique<V>(s: Seq<(Seq<u8>, V)>, i: int)
    requires
        assoc_unique(s),
        0 <= i < s.len(),
    ensures
        assoc_has(s, s[i].0),
        assoc_index(s, s[i].0) == i,
        assoc_to_map(s).contains_key(s[i].0),
        assoc_to_map(s)[s[i].0] == s[i].1,
{
    assert(assoc_has(s, s[i].0));
}

/// Replacing the value at index `i` is a map insert of the same key.
pub proof fn lemma_assoc_map_update<V>(s: Seq<(Seq<u8>, V)>, i: int, v: V)
    requires
        assoc_unique(s),
        0 <= i < s.len(),
    ensures
        assoc_unique(s.update(i, (s[i].0, v))),
        assoc_to_map(s.update(i, (s[i].0, v))) == assoc_to_map(s).insert(s[i].0, v),
{
    let t = s.update(i, (s[i].0, v));
    assert forall|a: int, b: int| 0 <= a < b < t.len() implies (#[trigger] t[a]).0 != (
    #[trigger] t[b]).0 by {
        assert(t[a].0 == s[a].0);
        assert(t[b].0 == s[b].0);
    }
    assert forall|k: Seq<u8>| assoc_has(t, k) <==> assoc_has(s, k) by {
        if assoc_has(t, k) {
            let w = choose|w: int| 0 <= w < t.len() && (#[trigger] t[w]).0 == k;
            assert(s[w].0 == k);
        }
        if assoc_has(s, k) {
            let w = choose|w: int| 0 <= w < s.len() && (#[trigger] s[w]).0 == k;
            assert(t[w].0 == k);
        }
    }
    assert forall|k: Seq<u8>| #[trigger] assoc_to_map(t).contains_key(k) implies assoc_to_map(t)[k]
        == assoc_to_map(s).insert(s[i].0, v)[k] by {
        let w = assoc_index(t, k);
        lemma_assoc_index_unique(t, w);
        if k == s[i].0 {
            lemma_assoc_index_unique(t, i);
            assert(w == i);
        } else {
            assert(s[w].0 == k);
            lemma_assoc_index_unique(s, w);
        }
    }
    assert(assoc_to_map(t) =~= assoc_to_map(s).insert(s[i].0, v));
}

/// Appending a pair with a fresh key is a map insert.
pub proof fn lemma_assoc_map_push<V>(s: Seq<(Seq<u8>, V)>, k: Seq<u8>, v: V)
    requires
        assoc_unique(s),
        !assoc_has(s, k),
    ensures
        assoc_unique(s.push((k, v))),
        assoc_to_map(s.push((k, v))) == assoc_to_map(s).insert(k, v),
{
    let t = s.push((k, v));
    assert forall|a: int, b: int| 0 <= a < b < t.len() implies (#[trigger] t[a]).0 != (
    #[trigger] t[b]).0 by {
        if b < t.len() - 1 {
            assert(t[a] == s[a]);
            assert(t[b] == s[b]);
        } else {
            assert(t[a] == s[a]);
            assert(t[b].0 == k);
            assert(s[a].0 != k);
        }
    }
    assert forall|q: Seq<u8>| assoc_has(t, q) <==> (assoc_has(s, q) || q == k) by {
        if assoc_has(t, q) {
            let w = choose|w: int| 0 <= w < t.len() && (#[trigger] t[w]).0 == q;
            if w < t.len() - 1 {
                assert(s[w].0 == q);
            }
        }
        if assoc_has(s, q) {
            let w = choose|w: int| 0 <= w < s.len() && (#[trigger] s[w]).0 == q;
            assert(t[w].0 == q);
        }
        if q == k {
            assert(t[t.len() - 1].0 == q);
        }
    }
    assert forall|q: Seq<u8>| #[trigger] assoc_to_map(t).contains_key(q) implies assoc_to_map(t)[q]
        == assoc_to_map(s).insert(k, v)[q] by {
        let w = assoc_index(t, q);
        lemma_assoc_index_unique(t, w);
        if q == k {
            lemma_assoc_index_unique(t, s.len() as int);
            assert(w == s.len());
        } else {
            assert(w < s.len());
            assert(s[w].0 == q);
            lemma_assoc_index_unique(s, w);
        }
    }
    assert(assoc_to_map(t) =~= assoc_to_map(s).insert(k, v));
}

} // verus!
