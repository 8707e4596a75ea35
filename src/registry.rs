use vstd::prelude::*;

verus! {

/// Some entry of `s` has key `k`.
pub open spec fn keyed_has<T>(s: Seq<T>, key: spec_fn(T) -> Seq<char>, k: Seq<char>) -> bool {
    exists|i: int| 0 <= i < s.len() && key(#[trigger] s[i]) == k
}

/// No two entries of `s` share a key.
pub open spec fn keys_unique<T>(s: Seq<T>, key: spec_fn(T) -> Seq<char>) -> bool {
    forall|i: int, j: int| 0 <= i < s.len() && 0 <= j < s.len() && i != j ==> key(#[trigger] s[i]) != key(#[trigger] s[j])
}

/// The map from key to value that a list with unique keys stands for.
pub open spec fn keyed_map<T, V>(s: Seq<T>, key: spec_fn(T) -> Seq<char>, val: spec_fn(T) -> V) -> Map<Seq<char>, V> {
    Map::new(
        |k: Seq<char>| keyed_has(s, key, k),
        |k: Seq<char>| val(s[choose|i: int| 0 <= i < s.len() && key(#[trigger] s[i]) == k]),
    )
}

pub proof fn lemma_keyed_at<T, V>(s: Seq<T>, key: spec_fn(T) -> Seq<char>, val: spec_fn(T) -> V, i: int)
    requires
        keys_unique(s, key),
        0 <= i < s.len(),
    ensures
        keyed_map(s, key, val).contains_key(key(s[i])),
        keyed_map(s, key, val)[key(s[i])] == val(s[i]),
{
    let k = key(s[i]);
    assert(keyed_has(s, key, k));
    let j = choose|j: int| 0 <= j < s.len() && key(#[trigger] s[j]) == k;
    if j != i {
        assert(key(s[i]) != key(s[j]));
    }
}

/// Replacing an entry by one with the same key writes that key in the map.
pub proof fn lemma_keyed_update<T, V>(s: Seq<T>, key: spec_fn(T) -> Seq<char>, val: spec_fn(T) -> V, i: int, x: T)
    requires
        keys_unique(s, key),
        0 <= i < s.len(),
        key(x) == key(s[i]),
    ensures
        keys_unique(s.update(i, x), key),
        keyed_map(s.update(i, x), key, val) == keyed_map(s, key, val).insert(key(x), val(x)),
{
    let n = s.update(i, x);
    let m = keyed_map(s, key, val).insert(key(x), val(x));
    assert forall|a: int, b: int| 0 <= a < n.len() && 0 <= b < n.len() && a != b implies key(#[trigger] n[a]) != key(
        #[trigger] n[b],
    ) by {
        assert(key(n[a]) == key(s[a]));
        assert(key(n[b]) == key(s[b]));
    }
    assert forall|k: Seq<char>| #[trigger] keyed_map(n, key, val).contains_key(k) <==> m.contains_key(k) by {
        if keyed_has(n, key, k) {
            let j = choose|j: int| 0 <= j < n.len() && key(#[trigger] n[j]) == k;
            if j != i {
                assert(n[j] == s[j]);
                lemma_keyed_at(s, key, val, j);
            }
        }
        if m.contains_key(k) && k != key(x) {
            let j = choose|j: int| 0 <= j < s.len() && key(#[trigger] s[j]) == k;
            assert(n[j] == s[j]);
        }
        if k == key(x) {
            assert(key(n[i]) == k);
        }
    }
    assert forall|k: Seq<char>| #[trigger] keyed_map(n, key, val).contains_key(k) implies keyed_map(n, key, val)[k]
        == m[k] by {
        let j = choose|j: int| 0 <= j < n.len() && key(#[trigger] n[j]) == k;
        lemma_keyed_at(n, key, val, j);
        if j != i {
            assert(n[j] == s[j]);
            lemma_keyed_at(s, key, val, j);
        }
    }
    assert(keyed_map(n, key, val) =~= m);
}

/// Appending an entry with a new key adds that key to the map.
pub proof fn lemma_keyed_push<T, V>(s: Seq<T>, key: spec_fn(T) -> Seq<char>, val: spec_fn(T) -> V, x: T)
    requires
        keys_unique(s, key),
        !keyed_has(s, key, key(x)),
    ensures
        keys_unique(s.push(x), key),
        keyed_map(s.push(x), key, val) == keyed_map(s, key, val).insert(key(x), val(x)),
{
    let n = s.push(x);
    let m = keyed_map(s, key, val).insert(key(x), val(x));
    assert forall|a: int, b: int| 0 <= a < n.len() && 0 <= b < n.len() && a != b implies key(#[trigger] n[a]) != key(
        #[trigger] n[b],
    ) by {
        if a < s.len() && b < s.len() {
            assert(n[a] == s[a] && n[b] == s[b]);
        } else if a < s.len() {
            assert(n[a] == s[a]);
        } else if b < s.len() {
            assert(n[b] == s[b]);
        }
    }
    assert forall|k: Seq<char>| #[trigger] keyed_map(n, key, val).contains_key(k) <==> m.contains_key(k) by {
        if keyed_has(n, key, k) {
            let j = choose|j: int| 0 <= j < n.len() && key(#[trigger] n[j]) == k;
            if j < s.len() {
                assert(n[j] == s[j]);
                lemma_keyed_at(s, key, val, j);
            }
        }
        if m.contains_key(k) && k != key(x) {
            let j = choose|j: int| 0 <= j < s.len() && key(#[trigger] s[j]) == k;
            assert(n[j] == s[j]);
        }
        if k == key(x) {
            assert(key(n[s.len() as int]) == k);
        }
    }
    assert forall|k: Seq<char>| #[trigger] keyed_map(n, key, val).contains_key(k) implies keyed_map(n, key, val)[k]
        == m[k] by {
        let j = choose|j: int| 0 <= j < n.len() && key(#[trigger] n[j]) == k;
        lemma_keyed_at(n, key, val, j);
        if j < s.len() {
            assert(n[j] == s[j]);
            lemma_keyed_at(s, key, val, j);
        }
    }
    assert(keyed_map(n, key, val) =~= m);
}

/// A list with unique keys has as many entries as its map has keys.
pub proof fn lemma_keyed_len<T, V>(s: Seq<T>, key: spec_fn(T) -> Seq<char>, val: spec_fn(T) -> V)
    requires
        keys_unique(s, key),
    ensures
        keyed_map(s, key, val).dom().finite(),
        keyed_map(s, key, val).len() == s.len(),
    decreases s.len(),
{
    let m = keyed_map(s, key, val);
    if s.len() == 0 {
        assert(m.dom() =~= Set::<Seq<char>>::empty());
    } else {
        let d = s.drop_last();
        assert forall|a: int, b: int| 0 <= a < d.len() && 0 <= b < d.len() && a != b implies key(#[trigger] d[a]) != key(
            #[trigger] d[b],
        ) by {
            assert(d[a] == s[a] && d[b] == s[b]);
        }
        lemma_keyed_len(d, key, val);
        let k = key(s.last());
        assert(!keyed_has(d, key, k)) by {
            if keyed_has(d, key, k) {
                let j = choose|j: int| 0 <= j < d.len() && key(#[trigger] d[j]) == k;
                assert(s[j] == d[j]);
                assert(key(s[j]) != key(s[s.len() - 1]));
            }
        }
        assert(m.dom() =~= keyed_map(d, key, val).dom().insert(k)) by {
            assert forall|x: Seq<char>| m.dom().contains(x) <==> #[trigger] keyed_map(d, key, val).dom().insert(k).contains(x) by {
                if keyed_has(s, key, x) {
                    let j = choose|j: int| 0 <= j < s.len() && key(#[trigger] s[j]) == x;
                    if j < s.len() - 1 {
                        assert(d[j] == s[j]);
                    }
                }
                if keyed_has(d, key, x) {
                    let j = choose|j: int| 0 <= j < d.len() && key(#[trigger] d[j]) == x;
                    assert(s[j] == d[j]);
                }
                if x == k {
                    assert(key(s[s.len() - 1]) == x);
                }
            }
        }
    }
}

pub proof fn lemma_keyed_empty<T, V>(s: Seq<T>, key: spec_fn(T) -> Seq<char>, val: spec_fn(T) -> V)
    requires
        s.len() == 0,
    ensures
        keys_unique(s, key),
        keyed_map(s, key, val) == Map::<Seq<char>, V>::empty(),
{
    assert(keyed_map(s, key, val) =~= Map::<Seq<char>, V>::empty());
}

} // verus!
