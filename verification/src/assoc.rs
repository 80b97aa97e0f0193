//! Ordered association sequences: the mathematical model shared by the insert
//! buffer, the per-collection row maps and the back-track indexes.  A store is
//! a sequence of `(key, value)` pairs; lookup finds the first pair whose key
//! matches.

use vstd::prelude::*;

verus! {

/// Index of the first pair whose key is `k`, or `-1` when no pair matches.
pub open spec fn assoc_index_of<K, V>(s: Seq<(K, V)>, k: K) -> int
    decreases s.len(),
{
    if s.len() == 0 {
        -1
    } else if s[0].0 == k {
        0
    } else {
        let r = assoc_index_of(s.drop_first(), k);
        if r == -1 {
            -1
        } else {
            r + 1
        }
    }
}

pub open spec fn assoc_has<K, V>(s: Seq<(K, V)>, k: K) -> bool {
    assoc_index_of(s, k) >= 0
}

/// Value bound to `k`, if any.
pub open spec fn assoc_get<K, V>(s: Seq<(K, V)>, k: K) -> Option<V> {
    let i = assoc_index_of(s, k);
    if i == -1 {
        None
    } else {
        Some(s[i].1)
    }
}

/// The sequence after binding `k` to `v`: the first pair keyed by `k` is
/// replaced, or the pair is appended when `k` is absent.
pub open spec fn assoc_put<K, V>(s: Seq<(K, V)>, k: K, v: V) -> Seq<(K, V)> {
    let i = assoc_index_of(s, k);
    if i == -1 {
        s.push((k, v))
    } else {
        s.update(i, (k, v))
    }
}

/// The sequence with the first pair keyed by `k` removed (unchanged when `k`
/// is absent).
pub open spec fn assoc_remove<K, V>(s: Seq<(K, V)>, k: K) -> Seq<(K, V)> {
    let i = assoc_index_of(s, k);
    if i == -1 {
        s
    } else {
        s.remove(i)
    }
}

/// `assoc_index_of` finds the first match: it lies in range, names a matching
/// pair, and nothing before it matches; `-1` means nothing matches at all.
pub proof fn lemma_assoc_index_of<K, V>(s: Seq<(K, V)>, k: K)
    ensures
        -1 <= assoc_index_of(s, k) < s.len(),
        assoc_index_of(s, k) == -1 ==> forall|j: int| 0 <= j < s.len() ==> (#[trigger] s[j]).0 != k,
        assoc_index_of(s, k) >= 0 ==> s[assoc_index_of(s, k)].0 == k && forall|j: int|
            0 <= j < assoc_index_of(s, k) ==> (#[trigger] s[j]).0 != k,
    decreases s.len(),
{
    if s.len() > 0 && s[0].0 != k {
        let t = s.drop_first();
        lemma_assoc_index_of(t, k);
        let r = assoc_index_of(t, k);
        if r == -1 {
            assert forall|j: int| 0 <= j < s.len() implies (#[trigger] s[j]).0 != k by {
                if j > 0 {
                    assert(t[j - 1] == s[j]);
                }
            }
        } else {
            assert(s[r + 1] == t[r]);
            assert forall|j: int| 0 <= j < r + 1 implies (#[trigger] s[j]).0 != k by {
                if j > 0 {
                    assert(t[j - 1] == s[j]);
                }
            }
        }
    }
}

/// Conversely, a position that matches and is preceded by no match is the
/// index that `assoc_index_of` finds.
pub proof fn lemma_assoc_index_unique<K, V>(s: Seq<(K, V)>, k: K, n: int)
    requires
        0 <= n < s.len(),
        s[n].0 == k,
        forall|j: int| 0 <= j < n ==> (#[trigger] s[j]).0 != k,
    ensures
        assoc_index_of(s, k) == n,
{
    lemma_assoc_index_of(s, k);
}

/// When nothing matches, `assoc_index_of` reports `-1`.
pub proof fn lemma_assoc_index_none<K, V>(s: Seq<(K, V)>, k: K)
    requires
        forall|j: int| 0 <= j < s.len() ==> (#[trigger] s[j]).0 != k,
    ensures
        assoc_index_of(s, k) == -1,
{
    lemma_assoc_index_of(s, k);
}

/// How `assoc_get` reads through `assoc_put`: the written key returns the new
/// value and every other key is untouched.
pub proof fn lemma_assoc_put<K, V>(s: Seq<(K, V)>, k: K, v: V)
    ensures
        assoc_get(assoc_put(s, k, v), k) == Some(v),
        forall|k2: K| k2 != k ==> #[trigger] assoc_get(assoc_put(s, k, v), k2) == assoc_get(s, k2),
{
    lemma_assoc_index_of(s, k);
    let t = assoc_put(s, k, v);
    let i = assoc_index_of(s, k);
    if i == -1 {
        lemma_assoc_index_unique(t, k, s.len() as int);
    } else {
        lemma_assoc_index_unique(t, k, i);
    }
    assert forall|k2: K| k2 != k implies #[trigger] assoc_get(t, k2) == assoc_get(s, k2) by {
        lemma_assoc_index_of(s, k2);
        let j = assoc_index_of(s, k2);
        if j == -1 {
            lemma_assoc_index_none(t, k2);
        } else {
            lemma_assoc_index_unique(t, k2, j);
        }
    }
}

/// How `assoc_get` reads through `assoc_remove`: the removed key is gone only
/// if it occurred once; keys before the removed position are untouched.
/// Under key uniqueness (which all stores here maintain) this pins every key.
pub proof fn lemma_assoc_remove<K, V>(s: Seq<(K, V)>, k: K)
    requires
        assoc_unique(s),
    ensures
        assoc_get(assoc_remove(s, k), k) == None::<V>,
        forall|k2: K| k2 != k ==> #[trigger] assoc_get(assoc_remove(s, k), k2) == assoc_get(s, k2),
        assoc_unique(assoc_remove(s, k)),
{
    lemma_assoc_index_of(s, k);
    let i = assoc_index_of(s, k);
    let t = assoc_remove(s, k);
    if i == -1 {
        assert(t == s);
    } else {
        assert forall|j: int| 0 <= j < t.len() implies #[trigger] t[j].0 != k by {
            if j < i {
            } else {
                assert(t[j] == s[j + 1]);
            }
        }
        lemma_assoc_index_none(t, k);
        assert forall|k2: K| k2 != k implies #[trigger] assoc_get(t, k2) == assoc_get(s, k2) by {
            lemma_assoc_index_of(s, k2);
            let j = assoc_index_of(s, k2);
            if j == -1 {
                assert forall|m: int| 0 <= m < t.len() implies #[trigger] t[m].0 != k2 by {
                    if m < i {
                    } else {
                        assert(t[m] == s[m + 1]);
                    }
                }
                lemma_assoc_index_none(t, k2);
            } else if j < i {
                lemma_assoc_index_unique(t, k2, j);
            } else {
                assert(t[j - 1] == s[j]);
                assert forall|m: int| 0 <= m < j - 1 implies #[trigger] t[m].0 != k2 by {
                    if m < i {
                    } else {
                        assert(t[m] == s[m + 1]);
                    }
                }
                lemma_assoc_index_unique(t, k2, j - 1);
            }
        }
        assert forall|a: int, b: int| 0 <= a < b < t.len() implies #[trigger] t[a].0 != #[trigger] t[b].0 by {
            let a2: int = if a < i { a } else { a + 1 };
            let b2: int = if b < i { b } else { b + 1 };
            assert(t[a] == s[a2]);
            assert(t[b] == s[b2]);
        }
    }
}

/// Every key occurs at most once.
pub open spec fn assoc_unique<K, V>(s: Seq<(K, V)>) -> bool {
    forall|a: int, b: int| 0 <= a < b < s.len() ==> (#[trigger] s[a]).0 != (#[trigger] s[b]).0
}

/// `assoc_put` preserves key uniqueness.
pub proof fn lemma_assoc_put_unique<K, V>(s: Seq<(K, V)>, k: K, v: V)
    requires
        assoc_unique(s),
    ensures
        assoc_unique(assoc_put(s, k, v)),
{
    lemma_assoc_index_of(s, k);
    let i = assoc_index_of(s, k);
    let t = assoc_put(s, k, v);
    if i == -1 {
        assert forall|a: int, b: int| 0 <= a < b < t.len() implies (#[trigger] t[a]).0 != (
        #[trigger] t[b]).0 by {
            if b == s.len() {
                assert(t[a] == s[a]);
            }
        }
    } else {
        assert forall|a: int, b: int| 0 <= a < b < t.len() implies (#[trigger] t[a]).0 != (
        #[trigger] t[b]).0 by {
            if a != i && b != i {
                assert(t[a] == s[a]);
                assert(t[b] == s[b]);
            } else if a == i {
                assert(t[b] == s[b]);
            } else {
                assert(t[a] == s[a]);
            }
        }
    }
}

} // verus!
