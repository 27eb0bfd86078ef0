//! Association lists: small maps kept as sequences of key-value pairs,
//! looked up by the first entry with the key and updated in place.
use vstd::prelude::*;

verus! {

/// Index of the first entry with key `k`, or `s.len()` when none has it.
pub open spec fn key_index<K, V>(s: Seq<(K, V)>, k: K) -> int
    decreases s.len(),
{
    if s.len() == 0 {
        0
    } else if s[0].0 == k {
        0
    } else {
        1 + key_index(s.drop_first(), k)
    }
}

/// The value stored for `k` (its first entry), if any.
pub open spec fn assoc_get<K, V>(s: Seq<(K, V)>, k: K) -> Option<V> {
    let i = key_index(s, k);
    if i < s.len() {
        Some(s[i].1)
    } else {
        None
    }
}

/// `s` with `k` mapped to `v`: the entry for `k` replaced, or appended.
pub open spec fn assoc_put<K, V>(s: Seq<(K, V)>, k: K, v: V) -> Seq<(K, V)> {
    let i = key_index(s, k);
    if i < s.len() {
        s.update(i, (k, v))
    } else {
        s.push((k, v))
    }
}

/// `s` without the entry for `k` (its first entry), if any.
pub open spec fn assoc_remove<K, V>(s: Seq<(K, V)>, k: K) -> Seq<(K, V)> {
    let i = key_index(s, k);
    if i < s.len() {
        s.remove(i)
    } else {
        s
    }
}

pub open spec fn keys_distinct<K, V>(s: Seq<(K, V)>) -> bool {
    forall|i: int, j: int| 0 <= i < j < s.len() ==> s[i].0 != s[j].0
}

pub proof fn lemma_key_index<K, V>(s: Seq<(K, V)>, k: K)
    ensures
        0 <= key_index(s, k) <= s.len(),
        key_index(s, k) < s.len() ==> s[key_index(s, k)].0 == k,
        forall|j: int| 0 <= j < key_index(s, k) ==> s[j].0 != k,
    decreases s.len(),
{
    if s.len() > 0 && s[0].0 != k {
        lemma_key_index(s.drop_first(), k);
        assert forall|j: int| 0 <= j < key_index(s, k) implies s[j].0 != k by {
            if j > 0 {
                assert(s[j] == s.drop_first()[j - 1]);
            }
        }
    }
}

pub proof fn lemma_key_index_is<K, V>(s: Seq<(K, V)>, k: K, i: int)
    requires
        0 <= i <= s.len(),
        i < s.len() ==> s[i].0 == k,
        forall|j: int| 0 <= j < i ==> s[j].0 != k,
    ensures
        key_index(s, k) == i,
    decreases s.len(),
{
    if s.len() > 0 && s[0].0 != k {
        assert forall|j: int| 0 <= j < i - 1 implies s.drop_first()[j].0 != k by {
            assert(s.drop_first()[j] == s[j + 1]);
        }
        lemma_key_index_is(s.drop_first(), k, i - 1);
    }
}

/// Putting a key keeps keys distinct, maps it to the new value, and
/// leaves every other key's value alone.
pub proof fn lemma_assoc_put<K, V>(s: Seq<(K, V)>, k: K, v: V)
    requires
        keys_distinct(s),
    ensures
        keys_distinct(assoc_put(s, k, v)),
        assoc_get(assoc_put(s, k, v), k) == Some(v),
        forall|k2: K| k2 != k ==> #[trigger] assoc_get(assoc_put(s, k, v), k2) == assoc_get(s, k2),
{
    let s1 = assoc_put(s, k, v);
    lemma_key_index(s, k);
    let i = key_index(s, k);
    assert(forall|j: int| 0 <= j < i ==> s1[j] == s[j]);
    lemma_key_index_is(s1, k, i);
    assert forall|k2: K| k2 != k implies #[trigger] assoc_get(s1, k2) == assoc_get(s, k2) by {
        lemma_key_index(s, k2);
        let j = key_index(s, k2);
        if j < s.len() {
            assert(j != i);
            assert(s1[j] == s[j]);
            assert forall|q: int| 0 <= q < j implies s1[q].0 != k2 by {
                if q != i {
                    assert(s1[q] == s[q]);
                }
            }
            lemma_key_index_is(s1, k2, j);
        } else {
            assert forall|q: int| 0 <= q < s1.len() implies s1[q].0 != k2 by {
                if q < s.len() && q != i {
                    assert(s1[q] == s[q]);
                }
            }
            lemma_key_index_is(s1, k2, s1.len() as int);
        }
    }
}

} // verus!
