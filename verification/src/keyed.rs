//! A vector whose elements carry distinct string keys, read as a map.
use vstd::prelude::*;

verus! {

/// Some element of `s` has key `k`.
pub open spec fn has_key<T>(s: Seq<T>, key: spec_fn(T) -> Seq<char>, k: Seq<char>) -> bool {
    exists|i: int| 0 <= i < s.len() && key(#[trigger] s[i]) == k
}

/// No two elements of `s` share a key.
pub open spec fn unique_keys<T>(s: Seq<T>, key: spec_fn(T) -> Seq<char>) -> bool {
    forall|i: int, j: int|
        0 <= i < s.len() && 0 <= j < s.len() && i != j ==> key(#[trigger] s[i]) != key(
            #[trigger] s[j],
        )
}

/// The map from each key of `s` to the value of the element holding it.
pub open spec fn keyed_map<T, V>(
    s: Seq<T>,
    key: spec_fn(T) -> Seq<char>,
    val: spec_fn(T) -> V,
) -> Map<Seq<char>, V> {
    Map::new(
        |k: Seq<char>| has_key(s, key, k),
        |k: Seq<char>| val(s[choose|i: int| 0 <= i < s.len() && key(#[trigger] s[i]) == k]),
    )
}

/// With distinct keys, each element is found under its own key.
pub proof fn lemma_keyed_at<T, V>(
    s: Seq<T>,
    key: spec_fn(T) -> Seq<char>,
    val: spec_fn(T) -> V,
    j: int,
)
    requires
        unique_keys(s, key),
        0 <= j < s.len(),
    ensures
        keyed_map(s, key, val).contains_key(key(s[j])),
        keyed_map(s, key, val)[key(s[j])] == val(s[j]),
{
    let k = key(s[j]);
    assert(has_key(s, key, k));
    let i = choose|i: int| 0 <= i < s.len() && key(#[trigger] s[i]) == k;
    assert(i == j);
}

/// Appending an element with a new key adds that key to the map.
pub proof fn lemma_keyed_push<T, V>(
    s: Seq<T>,
    key: spec_fn(T) -> Seq<char>,
    val: spec_fn(T) -> V,
    a: T,
)
    requires
        unique_keys(s, key),
        !has_key(s, key, key(a)),
    ensures
        unique_keys(s.push(a), key),
        keyed_map(s.push(a), key, val) == keyed_map(s, key, val).insert(key(a), val(a)),
{
    let t = s.push(a);
    assert forall|i: int, j: int|
        0 <= i < t.len() && 0 <= j < t.len() && i != j implies key(#[trigger] t[i]) != key(
        #[trigger] t[j],
    ) by {
        if i < s.len() && j < s.len() {
            assert(t[i] == s[i] && t[j] == s[j]);
        } else if i < s.len() {
            assert(t[i] == s[i]);
        } else {
            assert(t[j] == s[j]);
        }
    }
    let m1 = keyed_map(t, key, val);
    let m2 = keyed_map(s, key, val).insert(key(a), val(a));
    assert forall|k: Seq<char>| #[trigger] m1.contains_key(k) == m2.contains_key(k) by {
        if has_key(s, key, k) {
            let i = choose|i: int| 0 <= i < s.len() && key(#[trigger] s[i]) == k;
            assert(t[i] == s[i]);
        }
        if k == key(a) {
            assert(t[s.len() as int] == a);
        }
        if has_key(t, key, k) {
            let i = choose|i: int| 0 <= i < t.len() && key(#[trigger] t[i]) == k;
            if i < s.len() {
                assert(t[i] == s[i]);
            }
        }
    }
    assert forall|k: Seq<char>| #[trigger] m1.contains_key(k) implies m1[k] == m2[k] by {
        let i = choose|i: int| 0 <= i < t.len() && key(#[trigger] t[i]) == k;
        lemma_keyed_at(t, key, val, i);
        if i < s.len() {
            assert(t[i] == s[i]);
            lemma_keyed_at(s, key, val, i);
        } else {
            assert(t[i] == a);
        }
    }
    assert(m1 =~= m2);
}

/// Removing an element removes its key from the map.
pub proof fn lemma_keyed_remove<T, V>(
    s: Seq<T>,
    key: spec_fn(T) -> Seq<char>,
    val: spec_fn(T) -> V,
    j: int,
)
    requires
        unique_keys(s, key),
        0 <= j < s.len(),
    ensures
        unique_keys(s.remove(j), key),
        keyed_map(s.remove(j), key, val) == keyed_map(s, key, val).remove(key(s[j])),
{
    let t = s.remove(j);
    let kj = key(s[j]);
    assert forall|i: int, m: int|
        0 <= i < t.len() && 0 <= m < t.len() && i != m implies key(#[trigger] t[i]) != key(
        #[trigger] t[m],
    ) by {
        let si = if i < j {
            i
        } else {
            i + 1
        };
        let sm = if m < j {
            m
        } else {
            m + 1
        };
        assert(t[i] == s[si] && t[m] == s[sm]);
    }
    let m1 = keyed_map(t, key, val);
    let m2 = keyed_map(s, key, val).remove(kj);
    assert forall|k: Seq<char>| #[trigger] m1.contains_key(k) == m2.contains_key(k) by {
        if has_key(t, key, k) {
            let i = choose|i: int| 0 <= i < t.len() && key(#[trigger] t[i]) == k;
            let si = if i < j {
                i
            } else {
                i + 1
            };
            assert(t[i] == s[si]);
        }
        if has_key(s, key, k) && k != kj {
            let i = choose|i: int| 0 <= i < s.len() && key(#[trigger] s[i]) == k;
            let ti = if i < j {
                i
            } else {
                i - 1
            };
            assert(t[ti] == s[i]);
        }
    }
    assert forall|k: Seq<char>| #[trigger] m1.contains_key(k) implies m1[k] == m2[k] by {
        let i = choose|i: int| 0 <= i < t.len() && key(#[trigger] t[i]) == k;
        lemma_keyed_at(t, key, val, i);
        let si = if i < j {
            i
        } else {
            i + 1
        };
        assert(t[i] == s[si]);
        lemma_keyed_at(s, key, val, si);
    }
    assert(m1 =~= m2);
}

/// Replacing an element by one with the same key updates that key's value.
pub proof fn lemma_keyed_update<T, V>(
    s: Seq<T>,
    key: spec_fn(T) -> Seq<char>,
    val: spec_fn(T) -> V,
    j: int,
    a: T,
)
    requires
        unique_keys(s, key),
        0 <= j < s.len(),
        key(a) == key(s[j]),
    ensures
        unique_keys(s.update(j, a), key),
        keyed_map(s.update(j, a), key, val) == keyed_map(s, key, val).insert(key(a), val(a)),
{
    let t = s.update(j, a);
    assert forall|i: int, m: int|
        0 <= i < t.len() && 0 <= m < t.len() && i != m implies key(#[trigger] t[i]) != key(
        #[trigger] t[m],
    ) by {
        assert(key(t[i]) == key(s[i]) && key(t[m]) == key(s[m]));
    }
    let m1 = keyed_map(t, key, val);
    let m2 = keyed_map(s, key, val).insert(key(a), val(a));
    assert forall|k: Seq<char>| #[trigger] m1.contains_key(k) == m2.contains_key(k) by {
        if has_key(t, key, k) {
            let i = choose|i: int| 0 <= i < t.len() && key(#[trigger] t[i]) == k;
            assert(key(s[i]) == k);
        }
        if has_key(s, key, k) {
            let i = choose|i: int| 0 <= i < s.len() && key(#[trigger] s[i]) == k;
            assert(key(t[i]) == k);
        }
        if k == key(a) {
            assert(key(t[j]) == k);
        }
    }
    assert forall|k: Seq<char>| #[trigger] m1.contains_key(k) implies m1[k] == m2[k] by {
        let i = choose|i: int| 0 <= i < t.len() && key(#[trigger] t[i]) == k;
        lemma_keyed_at(t, key, val, i);
        if i != j {
            assert(t[i] == s[i]);
            lemma_keyed_at(s, key, val, i);
        }
    }
    assert(m1 =~= m2);
}

/// A prefix keeps distinct keys and does not hold the key of the next element.
pub proof fn lemma_keyed_take_succ<T>(s: Seq<T>, key: spec_fn(T) -> Seq<char>, i: int)
    requires
        unique_keys(s, key),
        0 <= i < s.len(),
    ensures
        unique_keys(s.take(i), key),
        !has_key(s.take(i), key, key(s[i])),
        s.take(i + 1) == s.take(i).push(s[i]),
{
    assert(s.take(i + 1) =~= s.take(i).push(s[i]));
    assert forall|a: int, b: int|
        0 <= a < i && 0 <= b < i && a != b implies key(#[trigger] s.take(i)[a]) != key(
        #[trigger] s.take(i)[b],
    ) by {
        assert(s.take(i)[a] == s[a] && s.take(i)[b] == s[b]);
    }
    if has_key(s.take(i), key, key(s[i])) {
        let m = choose|m: int| 0 <= m < i && key(#[trigger] s.take(i)[m]) == key(s[i]);
        assert(s.take(i)[m] == s[m]);
    }
}

/// An empty vector is the empty map.
pub proof fn lemma_keyed_empty<T, V>(
    s: Seq<T>,
    key: spec_fn(T) -> Seq<char>,
    val: spec_fn(T) -> V,
)
    requires
        s.len() == 0,
    ensures
        unique_keys(s, key),
        keyed_map(s, key, val) == Map::<Seq<char>, V>::empty(),
{
    assert(keyed_map(s, key, val) =~= Map::<Seq<char>, V>::empty());
}

} // verus!
