//! Association sequences viewed as maps.
//!
//! The demultiplexer keeps its bookkeeping in vectors of keyed entries with
//! pairwise distinct keys, so that every lookup, insertion and removal is
//! plain verified code. The spec functions here give such a sequence of
//! `(key, value)` pairs its mathematical reading as a `Map`, and the lemmas
//! relate the sequence operations to `Map` insertion and removal.

use vstd::prelude::*;

verus! {

/// Whether some pair in the sequence carries the key.
pub open spec fn assoc_has<K, V>(s: Seq<(K, V)>, k: K) -> bool {
    exists|i: int| 0 <= i < s.len() && s[i].0 == k
}

/// The index of the pair carrying the key.
pub open spec fn assoc_index<K, V>(s: Seq<(K, V)>, k: K) -> int {
    choose|i: int| 0 <= i < s.len() && s[i].0 == k
}

/// Whether the keys of the sequence are pairwise distinct.
pub open spec fn assoc_unique<K, V>(s: Seq<(K, V)>) -> bool {
    forall|i: int, j: int| 0 <= i < j < s.len() ==> s[i].0 != s[j].0
}

/// The map reading of an association sequence.
pub open spec fn assoc_map<K, V>(s: Seq<(K, V)>) -> Map<K, V> {
    Map::new(|k: K| assoc_has(s, k), |k: K| s[assoc_index(s, k)].1)
}

/// An entry's key is in the map, at its own index, with its own value.
pub proof fn lemma_assoc_at<K, V>(s: Seq<(K, V)>, i: int)
    requires
        assoc_unique(s),
        0 <= i < s.len(),
    ensures
        assoc_has(s, s[i].0),
        assoc_index(s, s[i].0) == i,
        assoc_map(s).contains_key(s[i].0),
        assoc_map(s)[s[i].0] == s[i].1,
{
    assert(assoc_has(s, s[i].0));
    let j = assoc_index(s, s[i].0);
    if j != i {
        assert(false);
    }
}

/// Appending a pair with a fresh key inserts it into the map reading.
pub proof fn lemma_assoc_push<K, V>(s: Seq<(K, V)>, k: K, v: V)
    requires
        assoc_unique(s),
        !assoc_has(s, k),
    ensures
        assoc_unique(s.push((k, v))),
        assoc_map(s.push((k, v))) == assoc_map(s).insert(k, v),
{
    let t = s.push((k, v));
    assert forall|i: int, j: int| 0 <= i < j < t.len() implies t[i].0 != t[j].0 by {
        if j == s.len() {
            assert(t[i].0 == s[i].0);
            if t[i].0 == k {
                assert(assoc_has(s, k));
            }
        }
    }
    assert forall|x: K| #[trigger] assoc_has(t, x) <==> assoc_has(s, x) || x == k by {
        if assoc_has(t, x) {
            let i = assoc_index(t, x);
            assert(0 <= i < t.len() && t[i].0 == x);
            if i < s.len() {
                assert(s[i].0 == x);
                assert(assoc_has(s, x));
            }
        }
        if assoc_has(s, x) {
            let i = choose|i: int| 0 <= i < s.len() && s[i].0 == x;
            assert(t[i].0 == x);
            assert(assoc_has(t, x));
        }
        if x == k {
            assert(t[s.len() as int].0 == x);
            assert(assoc_has(t, x));
        }
    }
    assert forall|x: K| assoc_has(t, x) implies #[trigger] assoc_map(t)[x] == assoc_map(
        s,
    ).insert(k, v)[x] by {
        let i = assoc_index(t, x);
        assert(0 <= i < t.len() && t[i].0 == x);
        if x == k {
            if i < s.len() {
                assert(assoc_has(s, k));
            }
            assert(i == s.len());
            assert(assoc_map(t)[x] == v);
        } else {
            assert(i < s.len());
            lemma_assoc_at(s, i);
            assert(assoc_unique(t));
            lemma_assoc_at(t, i);
            assert(assoc_map(t)[x] == t[i].1);
            assert(assoc_map(s)[x] == s[i].1);
        }
    }
    assert(assoc_map(t) =~= assoc_map(s).insert(k, v));
}

/// Removing a pair removes its key from the map reading.
pub proof fn lemma_assoc_remove<K, V>(s: Seq<(K, V)>, i: int)
    requires
        assoc_unique(s),
        0 <= i < s.len(),
    ensures
        assoc_unique(s.remove(i)),
        assoc_map(s.remove(i)) == assoc_map(s).remove(s[i].0),
{
    let t = s.remove(i);
    assert forall|p: int, q: int| 0 <= p < q < t.len() implies t[p].0 != t[q].0 by {
        let p0 = if p < i { p } else { p + 1 };
        let q0 = if q < i { q } else { q + 1 };
        assert(t[p] == s[p0]);
        assert(t[q] == s[q0]);
    }
    assert forall|x: K| #[trigger] assoc_has(t, x) <==> assoc_has(s, x) && x != s[i].0 by {
        if assoc_has(t, x) {
            let p = assoc_index(t, x);
            let p0 = if p < i { p } else { p + 1 };
            assert(t[p] == s[p0]);
            assert(assoc_has(s, x));
            if x == s[i].0 {
                assert(p0 != i);
                lemma_assoc_at(s, i);
                assert(s[p0].0 == s[i].0);
                assert(false);
            }
        }
        if assoc_has(s, x) && x != s[i].0 {
            let p0 = choose|p: int| 0 <= p < s.len() && s[p].0 == x;
            assert(p0 != i);
            let p = if p0 < i { p0 } else { p0 - 1 };
            assert(t[p] == s[p0]);
            assert(assoc_has(t, x));
        }
    }
    assert forall|x: K| assoc_has(t, x) implies #[trigger] assoc_map(t)[x] == assoc_map(s).remove(
        s[i].0,
    )[x] by {
        let p = assoc_index(t, x);
        assert(0 <= p < t.len() && t[p].0 == x);
        let p0 = if p < i { p } else { p + 1 };
        assert(t[p] == s[p0]);
        lemma_assoc_at(s, p0);
        lemma_assoc_at(t, p);
        assert(assoc_map(t)[x] == t[p].1);
        assert(assoc_map(s)[x] == s[p0].1);
    }
    assert(assoc_map(t) =~= assoc_map(s).remove(s[i].0));
}

/// Replacing the value at an index re-inserts its key in the map reading.
pub proof fn lemma_assoc_update<K, V>(s: Seq<(K, V)>, i: int, v: V)
    requires
        assoc_unique(s),
        0 <= i < s.len(),
    ensures
        assoc_unique(s.update(i, (s[i].0, v))),
        assoc_map(s.update(i, (s[i].0, v))) == assoc_map(s).insert(s[i].0, v),
{
    let t = s.update(i, (s[i].0, v));
    assert forall|p: int, q: int| 0 <= p < q < t.len() implies t[p].0 != t[q].0 by {
        assert(t[p].0 == s[p].0);
        assert(t[q].0 == s[q].0);
    }
    assert forall|x: K| #[trigger] assoc_has(t, x) <==> assoc_has(s, x) by {
        if assoc_has(t, x) {
            let p = assoc_index(t, x);
            assert(t[p].0 == s[p].0);
            assert(assoc_has(s, x));
        }
        if assoc_has(s, x) {
            let p = choose|p: int| 0 <= p < s.len() && s[p].0 == x;
            assert(t[p].0 == x);
            assert(assoc_has(t, x));
        }
    }
    assert forall|x: K| assoc_has(t, x) implies #[trigger] assoc_map(t)[x] == assoc_map(s).insert(
        s[i].0,
        v,
    )[x] by {
        let p = assoc_index(t, x);
        assert(0 <= p < t.len() && t[p].0 == x);
        lemma_assoc_at(t, p);
        assert(s[p].0 == x);
        lemma_assoc_at(s, p);
        if x == s[i].0 {
            lemma_assoc_at(t, i);
            assert(p == i);
        }
    }
    assert(assoc_map(t) =~= assoc_map(s).insert(s[i].0, v));
}

/// A key no pair carries is not in the map reading.
pub proof fn lemma_assoc_absent<K, V>(s: Seq<(K, V)>, k: K)
    requires
        !assoc_has(s, k),
    ensures
        !assoc_map(s).contains_key(k),
{
}

} // verus!
