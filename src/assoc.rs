//! Association lists: sequences of key-value pairs in which each key appears once.
use vstd::prelude::*;

verus! {

/// Whether the key `k` has an entry in `s`.
pub open spec fn has_key<K, V>(s: Seq<(K, V)>, k: K) -> bool {
    exists|i: int| 0 <= i < s.len() && s[i].0 == k
}

/// The value of `k` in `s`.
pub open spec fn value_of<K, V>(s: Seq<(K, V)>, k: K) -> V {
    s[choose|i: int| 0 <= i < s.len() && s[i].0 == k].1
}

pub open spec fn keys_unique<K, V>(s: Seq<(K, V)>) -> bool {
    forall|i: int, j: int| 0 <= i < s.len() && 0 <= j < s.len() && i != j ==> s[i].0 != s[j].0
}

/// The map that `s` stands for.
pub open spec fn to_map<K, V>(s: Seq<(K, V)>) -> Map<K, V> {
    Map::new(|k: K| has_key(s, k), |k: K| value_of(s, k))
}

pub proof fn lemma_value_of<K, V>(s: Seq<(K, V)>, j: int)
    requires
        keys_unique(s),
        0 <= j < s.len(),
    ensures
        has_key(s, s[j].0),
        value_of(s, s[j].0) == s[j].1,
{
    let k = s[j].0;
    assert(0 <= j < s.len() && s[j].0 == k);
    let c = choose|i: int| 0 <= i < s.len() && s[i].0 == k;
    assert(c == j);
}

/// Appending an entry for a new key adds it to the map.
pub proof fn lemma_push<K, V>(s: Seq<(K, V)>, k: K, v: V)
    requires
        keys_unique(s),
        !has_key(s, k),
    ensures
        keys_unique(s.push((k, v))),
        to_map(s.push((k, v))) == to_map(s).insert(k, v),
{
    let t = s.push((k, v));
    assert forall|i: int, j: int| 0 <= i < t.len() && 0 <= j < t.len() && i != j implies t[i].0 != t[j].0 by {
        if i == s.len() {
            assert(!(0 <= j < s.len() && s[j].0 == k));
        } else if j == s.len() {
            assert(!(0 <= i < s.len() && s[i].0 == k));
        } else {
            assert(t[i] == s[i] && t[j] == s[j]);
        }
    }
    lemma_value_of(t, s.len() as int);
    assert forall|q: K| #[trigger] has_key(t, q) == (has_key(s, q) || q == k) by {
        if has_key(s, q) {
            let b = choose|b: int| 0 <= b < s.len() && s[b].0 == q;
            assert(t[b].0 == q);
        }
        if has_key(t, q) && q != k {
            let a = choose|a: int| 0 <= a < t.len() && t[a].0 == q;
            assert(s[a].0 == q);
        }
    }
    assert forall|q: K| has_key(s, q) implies #[trigger] value_of(t, q) == value_of(s, q) by {
        let b = choose|b: int| 0 <= b < s.len() && s[b].0 == q;
        assert(t[b] == s[b]);
        lemma_value_of(t, b);
        lemma_value_of(s, b);
    }
    assert(to_map(t) =~= to_map(s).insert(k, v));
}

/// Removing the entry at `i` removes its key from the map.
pub proof fn lemma_remove<K, V>(s: Seq<(K, V)>, i: int)
    requires
        keys_unique(s),
        0 <= i < s.len(),
    ensures
        keys_unique(s.remove(i)),
        to_map(s.remove(i)) == to_map(s).remove(s[i].0),
{
    let t = s.remove(i);
    let k = s[i].0;
    assert forall|a: int| 0 <= a < t.len() implies t[a] == s[if a < i { a } else { a + 1 }] by {}
    assert forall|a: int, b: int| 0 <= a < t.len() && 0 <= b < t.len() && a != b implies t[a].0 != t[b].0 by {
        assert(t[a] == s[if a < i { a } else { a + 1 }]);
        assert(t[b] == s[if b < i { b } else { b + 1 }]);
    }
    assert forall|q: K| #[trigger] has_key(t, q) == (has_key(s, q) && q != k) by {
        if has_key(t, q) {
            let a = choose|a: int| 0 <= a < t.len() && t[a].0 == q;
            let b = if a < i { a } else { a + 1 };
            assert(s[b].0 == q);
        }
        if has_key(s, q) && q != k {
            let b = choose|b: int| 0 <= b < s.len() && s[b].0 == q;
            assert(b != i);
            let a = if b < i { b } else { b - 1 };
            assert(t[a] == s[b]);
        }
    }
    assert forall|q: K| has_key(t, q) implies #[trigger] value_of(t, q) == value_of(s, q) by {
        let a = choose|a: int| 0 <= a < t.len() && t[a].0 == q;
        let b = if a < i { a } else { a + 1 };
        assert(t[a] == s[b]);
        lemma_value_of(t, a);
        lemma_value_of(s, b);
    }
    assert(to_map(t) =~= to_map(s).remove(k));
}

} // verus!
