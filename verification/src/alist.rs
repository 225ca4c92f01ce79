//! Association lists: the key-value tables of the dictionary layer are
//! kept as ordered lists of pairs, looked up by the first pair whose key
//! matches.

use vstd::prelude::*;

verus! {

/// The value of the first pair of `s` whose key is `k`.
pub open spec fn alist_get<K, V>(s: Seq<(K, V)>, k: K) -> Option<V>
    decreases s.len(),
{
    if s.len() == 0 {
        None
    } else if s[0].0 == k {
        Some(s[0].1)
    } else {
        alist_get(s.drop_first(), k)
    }
}

/// Index of the first pair of `s` whose key is `k`, or `s.len()`.
pub open spec fn alist_index<K, V>(s: Seq<(K, V)>, k: K) -> int
    decreases s.len(),
{
    if s.len() == 0 {
        0
    } else if s[0].0 == k {
        0
    } else {
        1 + alist_index(s.drop_first(), k)
    }
}

/// The first matching pair is found at [`alist_index`].
pub proof fn lemma_alist_index<K, V>(s: Seq<(K, V)>, k: K)
    ensures
        0 <= alist_index(s, k) <= s.len(),
        alist_index(s, k) < s.len() ==> s[alist_index(s, k)].0 == k && alist_get(s, k) == Some(
            s[alist_index(s, k)].1,
        ),
        alist_index(s, k) == s.len() ==> alist_get(s, k) is None,
        forall|j: int| 0 <= j < alist_index(s, k) ==> s[j].0 != k,
    decreases s.len(),
{
    if s.len() > 0 && s[0].0 != k {
        lemma_alist_index(s.drop_first(), k);
        assert forall|j: int| 0 <= j < alist_index(s, k) implies s[j].0 != k by {
            if j > 0 {
                assert(s[j] == s.drop_first()[j - 1]);
            }
        }
    }
}

/// Replacing the first pair with key `k` rebinds `k` and keeps every other
/// key's value.
pub proof fn lemma_alist_replace<K, V>(s: Seq<(K, V)>, k: K, v: V, k2: K)
    requires
        alist_index(s, k) < s.len(),
    ensures
        alist_get(s.update(alist_index(s, k), (k, v)), k2) == if k2 == k {
            Some(v)
        } else {
            alist_get(s, k2)
        },
    decreases s.len(),
{
    lemma_alist_index(s, k);
    let i = alist_index(s, k);
    if i == 0 {
        assert(s.update(0, (k, v)).drop_first() =~= s.drop_first());
    } else {
        lemma_alist_replace(s.drop_first(), k, v, k2);
        assert(s.update(i, (k, v)).drop_first() =~= s.drop_first().update(i - 1, (k, v)));
    }
}

/// Appending a pair for an absent key binds it and keeps every other key's
/// value.
pub proof fn lemma_alist_push<K, V>(s: Seq<(K, V)>, k: K, v: V, k2: K)
    requires
        alist_get(s, k) is None,
    ensures
        alist_get(s.push((k, v)), k2) == if k2 == k && alist_get(s, k2) is None {
            Some(v)
        } else {
            alist_get(s, k2)
        },
    decreases s.len(),
{
    if s.len() == 0 {
        assert(s.push((k, v)).drop_first() =~= s);
    } else {
        assert(s.push((k, v)).drop_first() =~= s.drop_first().push((k, v)));
        if s[0].0 != k2 {
            lemma_alist_push(s.drop_first(), k, v, k2);
        }
    }
}

} // verus!
