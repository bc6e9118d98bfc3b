//! Association lists: vectors of (key, value) entries with distinct keys, seen
//! as maps.
use vstd::prelude::*;

verus! {

/// No key occurs twice.
pub open spec fn distinct_keys<K, V>(s: Seq<(K, V)>) -> bool {
    forall|i: int, j: int| 0 <= i < j < s.len() ==> s[i].0 != s[j].0
}

/// Whether some entry has key `k`.
pub open spec fn has_key<K, V>(s: Seq<(K, V)>, k: K) -> bool {
    exists|i: int| 0 <= i < s.len() && s[i].0 == k
}

/// The map that the entries describe.
pub open spec fn assoc<K, V>(s: Seq<(K, V)>) -> Map<K, V> {
    Map::new(
        |k: K| has_key(s, k),
        |k: K| s[choose|i: int| 0 <= i < s.len() && s[i].0 == k].1,
    )
}

/// The entry at `i` is what the map holds for its key.
pub proof fn lemma_assoc_at<K, V>(s: Seq<(K, V)>, i: int)
    requires
        distinct_keys(s),
        0 <= i < s.len(),
    ensures
        assoc(s).contains_key(s[i].0),
        assoc(s)[s[i].0] == s[i].1,
{
    let k = s[i].0;
    assert(has_key(s, k));
    let j = choose|j: int| 0 <= j < s.len() && s[j].0 == k;
    if j != i {
        if j < i {
            assert(s[j].0 != s[i].0);
        } else {
            assert(s[i].0 != s[j].0);
        }
    }
}

/// Overwriting the entry of a key updates the map.
pub proof fn lemma_assoc_update<K, V>(s: Seq<(K, V)>, i: int, v: V)
    requires
        distinct_keys(s),
        0 <= i < s.len(),
    ensures
        distinct_keys(s.update(i, (s[i].0, v))),
        assoc(s.update(i, (s[i].0, v))) == assoc(s).insert(s[i].0, v),
{
    let k = s[i].0;
    let t = s.update(i, (k, v));
    assert(distinct_keys(t)) by {
        assert forall|a: int, b: int| 0 <= a < b < t.len() implies t[a].0 != t[b].0 by {
            assert(t[a].0 == s[a].0);
            assert(t[b].0 == s[b].0);
        }
    }
    assert forall|key: K| has_key(t, key) == (has_key(s, key) || key == k) by {
        if has_key(s, key) {
            let j = choose|j: int| 0 <= j < s.len() && s[j].0 == key;
            assert(t[j].0 == key);
        }
        if has_key(t, key) {
            let j = choose|j: int| 0 <= j < t.len() && t[j].0 == key;
            assert(s[j].0 == key);
        }
        if key == k {
            assert(t[i].0 == key);
        }
    }
    assert forall|key: K| #[trigger] assoc(t).contains_key(key) implies assoc(t)[key] == assoc(
        s,
    ).insert(k, v)[key] by {
        let j = choose|j: int| 0 <= j < t.len() && t[j].0 == key;
        lemma_assoc_at(t, j);
        if j != i {
            lemma_assoc_at(s, j);
        }
    }
    assert(assoc(t) =~= assoc(s).insert(k, v));
}

/// Appending a new key extends the map.
pub proof fn lemma_assoc_push<K, V>(s: Seq<(K, V)>, k: K, v: V)
    requires
        distinct_keys(s),
        !has_key(s, k),
    ensures
        distinct_keys(s.push((k, v))),
        assoc(s.push((k, v))) == assoc(s).insert(k, v),
{
    let t = s.push((k, v));
    assert(distinct_keys(t)) by {
        assert forall|a: int, b: int| 0 <= a < b < t.len() implies t[a].0 != t[b].0 by {
            if b == s.len() {
                assert(t[a].0 == s[a].0);
            } else {
                assert(t[a] == s[a]);
                assert(t[b] == s[b]);
            }
        }
    }
    assert forall|key: K| has_key(t, key) == (has_key(s, key) || key == k) by {
        if has_key(s, key) {
            let j = choose|j: int| 0 <= j < s.len() && s[j].0 == key;
            assert(t[j].0 == key);
        }
        if has_key(t, key) {
            let j = choose|j: int| 0 <= j < t.len() && t[j].0 == key;
            if j < s.len() {
                assert(s[j].0 == key);
            }
        }
        if key == k {
            assert(t[s.len() as int].0 == key);
        }
    }
    assert forall|key: K| #[trigger] assoc(t).contains_key(key) implies assoc(t)[key] == assoc(
        s,
    ).insert(k, v)[key] by {
        let j = choose|j: int| 0 <= j < t.len() && t[j].0 == key;
        lemma_assoc_at(t, j);
        if j < s.len() {
            assert(t[j] == s[j]);
            lemma_assoc_at(s, j);
        }
    }
    assert(assoc(t) =~= assoc(s).insert(k, v));
}

/// An empty list is the empty map.
pub proof fn lemma_assoc_empty<K, V>(s: Seq<(K, V)>)
    requires
        s.len() == 0,
    ensures
        distinct_keys(s),
        assoc(s) == Map::<K, V>::empty(),
{
    assert(assoc(s) =~= Map::<K, V>::empty());
}

} // verus!
