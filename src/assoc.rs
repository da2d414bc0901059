//! Association lists: sequences of key/value pairs read as finite maps.
//! The registry keeps each of its indexes as a vector of pairs with distinct keys.
use vstd::prelude::*;

verus! {

/// The map that a sequence of pairs denotes; a later pair wins over an earlier one.
pub open spec fn assoc_map<K, V>(s: Seq<(K, V)>) -> Map<K, V>
    decreases s.len(),
{
    if s.len() == 0 {
        Map::empty()
    } else {
        assoc_map(s.drop_last()).insert(s.last().0, s.last().1)
    }
}

/// No key occurs twice.
pub open spec fn keys_distinct<K, V>(s: Seq<(K, V)>) -> bool {
    forall|i: int, j: int|
        0 <= i < s.len() && 0 <= j < s.len() && i != j ==> #[trigger] s[i].0 != #[trigger] s[j].0
}

/// A key is in the map exactly when some pair carries it.
pub proof fn lemma_assoc_dom<K, V>(s: Seq<(K, V)>, k: K)
    ensures
        assoc_map(s).contains_key(k) <==> exists|i: int| 0 <= i < s.len() && #[trigger] s[i].0 == k,
    decreases s.len(),
{
    if s.len() > 0 {
        let t = s.drop_last();
        lemma_assoc_dom(t, k);
        if assoc_map(s).contains_key(k) {
            if k != s.last().0 {
                let i = choose|i: int| 0 <= i < t.len() && #[trigger] t[i].0 == k;
                assert(s[i].0 == k);
            } else {
                assert(s[s.len() - 1].0 == k);
            }
        }
        if exists|i: int| 0 <= i < s.len() && #[trigger] s[i].0 == k {
            let i = choose|i: int| 0 <= i < s.len() && #[trigger] s[i].0 == k;
            if i < s.len() - 1 {
                assert(t[i].0 == k);
            }
        }
    }
}

/// With distinct keys, the map sends each pair's key to that pair's value.
pub proof fn lemma_assoc_index<K, V>(s: Seq<(K, V)>, i: int)
    requires
        keys_distinct(s),
        0 <= i < s.len(),
    ensures
        assoc_map(s).contains_key(s[i].0),
        assoc_map(s)[s[i].0] == s[i].1,
    decreases s.len(),
{
    let t = s.drop_last();
    if i < s.len() - 1 {
        assert(keys_distinct(t)) by {
            assert forall|a: int, b: int|
                0 <= a < t.len() && 0 <= b < t.len() && a != b implies #[trigger] t[a].0
                != #[trigger] t[b].0 by {
                assert(t[a] == s[a] && t[b] == s[b]);
            }
        }
        lemma_assoc_index(t, i);
        assert(s[i].0 != s[s.len() - 1].0);
        assert(t[i] == s[i]);
    }
}

/// Appending a pair with a new key inserts it.
pub proof fn lemma_assoc_push<K, V>(s: Seq<(K, V)>, k: K, v: V)
    requires
        keys_distinct(s),
        !assoc_map(s).contains_key(k),
    ensures
        assoc_map(s.push((k, v))) == assoc_map(s).insert(k, v),
        keys_distinct(s.push((k, v))),
{
    let u = s.push((k, v));
    assert(u.drop_last() =~= s);
    lemma_assoc_dom(s, k);
    assert forall|a: int, b: int|
        0 <= a < u.len() && 0 <= b < u.len() && a != b implies #[trigger] u[a].0
        != #[trigger] u[b].0 by {
        if a == s.len() {
            assert(s[b].0 == u[b].0);
        } else if b == s.len() {
            assert(s[a].0 == u[a].0);
        } else {
            assert(s[a] == u[a] && s[b] == u[b]);
        }
    }
}

/// Removing the pair at `i` removes its key.
pub proof fn lemma_assoc_remove<K, V>(s: Seq<(K, V)>, i: int)
    requires
        keys_distinct(s),
        0 <= i < s.len(),
    ensures
        assoc_map(s.remove(i)) == assoc_map(s).remove(s[i].0),
        keys_distinct(s.remove(i)),
{
    let u = s.remove(i);
    let k0 = s[i].0;
    assert(keys_distinct(u)) by {
        assert forall|a: int, b: int|
            0 <= a < u.len() && 0 <= b < u.len() && a != b implies #[trigger] u[a].0
            != #[trigger] u[b].0 by {
            let a2 = if a < i { a } else { a + 1 };
            let b2 = if b < i { b } else { b + 1 };
            assert(u[a] == s[a2] && u[b] == s[b2]);
        }
    }
    assert forall|k: K| #[trigger] assoc_map(u).contains_key(k) <==> assoc_map(s).remove(
        k0,
    ).contains_key(k) by {
        lemma_assoc_dom(u, k);
        lemma_assoc_dom(s, k);
        if assoc_map(u).contains_key(k) {
            let a = choose|a: int| 0 <= a < u.len() && #[trigger] u[a].0 == k;
            let a2 = if a < i { a } else { a + 1 };
            assert(u[a] == s[a2]);
            assert(s[a2].0 == k);
        }
        if assoc_map(s).remove(k0).contains_key(k) {
            let a = choose|a: int| 0 <= a < s.len() && #[trigger] s[a].0 == k;
            assert(a != i);
            let a2 = if a < i { a } else { a - 1 };
            assert(u[a2] == s[a]);
            assert(u[a2].0 == k);
        }
    }
    assert forall|k: K| #[trigger] assoc_map(u).contains_key(k) implies assoc_map(u)[k]
        == assoc_map(s)[k] by {
        lemma_assoc_dom(u, k);
        let a = choose|a: int| 0 <= a < u.len() && #[trigger] u[a].0 == k;
        let a2 = if a < i { a } else { a + 1 };
        assert(u[a] == s[a2]);
        lemma_assoc_index(u, a);
        lemma_assoc_index(s, a2);
    }
    assert(assoc_map(u) =~= assoc_map(s).remove(k0));
}

/// Replacing the value of the pair at `i` updates its key.
pub proof fn lemma_assoc_update<K, V>(s: Seq<(K, V)>, i: int, v: V)
    requires
        keys_distinct(s),
        0 <= i < s.len(),
    ensures
        assoc_map(s.update(i, (s[i].0, v))) == assoc_map(s).insert(s[i].0, v),
        keys_distinct(s.update(i, (s[i].0, v))),
{
    let u = s.update(i, (s[i].0, v));
    let k0 = s[i].0;
    assert(keys_distinct(u)) by {
        assert forall|a: int, b: int|
            0 <= a < u.len() && 0 <= b < u.len() && a != b implies #[trigger] u[a].0
            != #[trigger] u[b].0 by {
            assert(u[a].0 == s[a].0 && u[b].0 == s[b].0);
        }
    }
    assert forall|k: K| #[trigger] assoc_map(u).contains_key(k) <==> assoc_map(s).insert(
        k0,
        v,
    ).contains_key(k) by {
        lemma_assoc_dom(u, k);
        lemma_assoc_dom(s, k);
        if assoc_map(u).contains_key(k) {
            let a = choose|a: int| 0 <= a < u.len() && #[trigger] u[a].0 == k;
            assert(s[a].0 == k);
        }
        if assoc_map(s).contains_key(k) {
            let a = choose|a: int| 0 <= a < s.len() && #[trigger] s[a].0 == k;
            assert(u[a].0 == k);
        }
        assert(u[i].0 == k0);
    }
    assert forall|k: K| #[trigger] assoc_map(u).contains_key(k) implies assoc_map(u)[k]
        == assoc_map(s).insert(k0, v)[k] by {
        lemma_assoc_dom(u, k);
        let a = choose|a: int| 0 <= a < u.len() && #[trigger] u[a].0 == k;
        lemma_assoc_index(u, a);
        if a != i {
            lemma_assoc_index(s, a);
        }
    }
    assert(assoc_map(u) =~= assoc_map(s).insert(k0, v));
}

/// With distinct keys, the map has one entry per pair.
pub proof fn lemma_assoc_len<K, V>(s: Seq<(K, V)>)
    requires
        keys_distinct(s),
    ensures
        assoc_map(s).dom().finite(),
        assoc_map(s).len() == s.len(),
    decreases s.len(),
{
    if s.len() > 0 {
        let t = s.drop_last();
        assert(keys_distinct(t)) by {
            assert forall|a: int, b: int|
                0 <= a < t.len() && 0 <= b < t.len() && a != b implies #[trigger] t[a].0
                != #[trigger] t[b].0 by {
                assert(t[a] == s[a] && t[b] == s[b]);
            }
        }
        lemma_assoc_len(t);
        lemma_assoc_dom(t, s.last().0);
        if assoc_map(t).contains_key(s.last().0) {
            let i = choose|i: int| 0 <= i < t.len() && #[trigger] t[i].0 == s.last().0;
            assert(s[i].0 == s[s.len() - 1].0);
        }
    }
}

} // verus!
