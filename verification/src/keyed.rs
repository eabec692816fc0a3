//! Sequences of keyed entries read as finite maps.
//!
//! The tables of the market are vectors searched from the front. Their
//! contracts speak of maps; the lemmas here carry each change of the vector
//! over to the map.

use vstd::prelude::*;

verus! {

/// No key occurs in two entries.
pub open spec fn distinct_keys<K, V>(s: Seq<(K, V)>) -> bool {
    forall|i: int, j: int| 0 <= i < j < s.len() ==> (#[trigger] s[i]).0 != (#[trigger] s[j]).0
}

/// Some entry carries the key.
pub open spec fn has_key<K, V>(s: Seq<(K, V)>, k: K) -> bool {
    exists|i: int| 0 <= i < s.len() && (#[trigger] s[i]).0 == k
}

/// The place of an entry with the key, where there is one.
pub open spec fn slot<K, V>(s: Seq<(K, V)>, k: K) -> int {
    choose|i: int| 0 <= i < s.len() && (#[trigger] s[i]).0 == k
}

/// The map from each key to the value of its entry.
pub open spec fn as_map<K, V>(s: Seq<(K, V)>) -> Map<K, V> {
    Map::new(|k: K| has_key(s, k), |k: K| s[slot(s, k)].1)
}

/// With distinct keys, the entry at a place is what the map holds for its key.
pub proof fn lemma_as_map_at<K, V>(s: Seq<(K, V)>, i: int)
    requires
        distinct_keys(s),
        0 <= i < s.len(),
    ensures
        has_key(s, s[i].0),
        slot(s, s[i].0) == i,
        as_map(s).contains_key(s[i].0),
        as_map(s)[s[i].0] == s[i].1,
{
    let j = slot(s, s[i].0);
    assert(0 <= j < s.len() && s[j].0 == s[i].0);
    if j < i {
        assert(s[j].0 != s[i].0);
    } else if i < j {
        assert(s[i].0 != s[j].0);
    }
}

/// Appending an entry with a fresh key inserts it into the map.
pub proof fn lemma_as_map_push<K, V>(s: Seq<(K, V)>, k: K, v: V)
    requires
        distinct_keys(s),
        !has_key(s, k),
    ensures
        distinct_keys(s.push((k, v))),
        as_map(s.push((k, v))) == as_map(s).insert(k, v),
{
    let t = s.push((k, v));
    assert forall|i: int, j: int| 0 <= i < j < t.len() implies (#[trigger] t[i]).0 != (#[trigger] t[j]).0 by {
        if j < s.len() {
            assert(s[i].0 != s[j].0);
        } else {
            assert(t[i] == s[i]);
        }
    }
    assert forall|q: K| #[trigger] as_map(t).contains_key(q) implies as_map(s).insert(k, v).contains_key(q) by {
        let i = slot(t, q);
        if i < s.len() {
            assert(s[i].0 == q);
        }
    }
    assert forall|q: K| #[trigger] as_map(s).insert(k, v).contains_key(q) implies as_map(t).contains_key(q)
        && as_map(t)[q] == as_map(s).insert(k, v)[q] by {
        if q == k {
            assert(t[s.len() as int] == (k, v));
            lemma_as_map_at(t, s.len() as int);
        } else {
            let i = slot(s, q);
            assert(t[i] == s[i]);
            lemma_as_map_at(t, i);
        }
    }
    assert(as_map(t) =~= as_map(s).insert(k, v));
}

/// Replacing the value of an entry overwrites the key in the map.
pub proof fn lemma_as_map_update<K, V>(s: Seq<(K, V)>, i: int, v: V)
    requires
        distinct_keys(s),
        0 <= i < s.len(),
    ensures
        distinct_keys(s.update(i, (s[i].0, v))),
        as_map(s.update(i, (s[i].0, v))) == as_map(s).insert(s[i].0, v),
{
    let k = s[i].0;
    let t = s.update(i, (k, v));
    assert forall|a: int, b: int| 0 <= a < b < t.len() implies (#[trigger] t[a]).0 != (#[trigger] t[b]).0 by {
        assert(t[a].0 == s[a].0 && t[b].0 == s[b].0);
        assert(s[a].0 != s[b].0);
    }
    assert forall|q: K| #[trigger] as_map(t).contains_key(q) implies as_map(s).insert(k, v).contains_key(q) by {
        let j = slot(t, q);
        assert(s[j].0 == q);
    }
    assert forall|q: K| #[trigger] as_map(s).insert(k, v).contains_key(q) implies as_map(t).contains_key(q)
        && as_map(t)[q] == as_map(s).insert(k, v)[q] by {
        if q == k {
            lemma_as_map_at(t, i);
        } else {
            let j = slot(s, q);
            assert(t[j] == s[j]);
            lemma_as_map_at(t, j);
        }
    }
    assert(as_map(t) =~= as_map(s).insert(k, v));
}

/// Taking an entry out removes its key from the map.
pub proof fn lemma_as_map_remove<K, V>(s: Seq<(K, V)>, i: int)
    requires
        distinct_keys(s),
        0 <= i < s.len(),
    ensures
        distinct_keys(s.remove(i)),
        as_map(s.remove(i)) == as_map(s).remove(s[i].0),
{
    let k = s[i].0;
    let t = s.remove(i);
    assert forall|a: int, b: int| 0 <= a < b < t.len() implies (#[trigger] t[a]).0 != (#[trigger] t[b]).0 by {
        let a0 = if a < i { a } else { a + 1 };
        let b0 = if b < i { b } else { b + 1 };
        assert(t[a] == s[a0] && t[b] == s[b0]);
        assert(s[a0].0 != s[b0].0);
    }
    assert forall|q: K| #[trigger] as_map(t).contains_key(q) implies as_map(s).remove(k).contains_key(q) by {
        let j = slot(t, q);
        let j0 = if j < i { j } else { j + 1 };
        assert(t[j] == s[j0]);
        if j0 < i {
            assert(s[j0].0 != s[i].0);
        } else {
            assert(s[i].0 != s[j0].0);
        }
    }
    assert forall|q: K| #[trigger] as_map(s).remove(k).contains_key(q) implies as_map(t).contains_key(q)
        && as_map(t)[q] == as_map(s).remove(k)[q] by {
        let j0 = slot(s, q);
        assert(j0 != i);
        let j = if j0 < i { j0 } else { j0 - 1 };
        assert(t[j] == s[j0]);
        lemma_as_map_at(t, j);
    }
    assert(as_map(t) =~= as_map(s).remove(k));
}

/// With distinct keys the map has as many keys as the sequence has entries.
pub proof fn lemma_as_map_len<K, V>(s: Seq<(K, V)>)
    requires
        distinct_keys(s),
    ensures
        as_map(s).dom().finite(),
        as_map(s).dom().len() == s.len(),
    decreases s.len(),
{
    if s.len() == 0 {
        assert(as_map(s).dom() =~= Set::<K>::empty());
    } else {
        let r = s.drop_last();
        let e = s.last();
        assert forall|i: int, j: int| 0 <= i < j < r.len() implies (#[trigger] r[i]).0 != (#[trigger] r[j]).0 by {
            assert(s[i].0 != s[j].0);
        }
        if has_key(r, e.0) {
            let i = slot(r, e.0);
            assert(s[i].0 != s[s.len() - 1].0);
        }
        lemma_as_map_len(r);
        lemma_as_map_push(r, e.0, e.1);
        assert(r.push((e.0, e.1)) =~= s);
        assert(as_map(s).dom() =~= as_map(r).dom().insert(e.0));
    }
}

} // verus!
