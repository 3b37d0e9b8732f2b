//! Association lists: sequences of key/value pairs read front to back, the
//! first pair with a key giving its value.

use vstd::prelude::*;

verus! {

/// The value of the first pair whose key is `k`.
pub open spec fn find<K, V>(s: Seq<(K, V)>, k: K) -> Option<V>
    decreases s.len(),
{
    if s.len() == 0 {
        None
    } else if s[0].0 == k {
        Some(s[0].1)
    } else {
        find(s.drop_first(), k)
    }
}

/// No key appears twice.
pub open spec fn keys_unique<K, V>(s: Seq<(K, V)>) -> bool {
    forall|i: int, j: int| 0 <= i < j < s.len() ==> s[i].0 != s[j].0
}

/// `find` yields a value exactly when some pair has the key, and then the
/// value of the first such pair.
pub proof fn lemma_find_index<K, V>(s: Seq<(K, V)>, k: K)
    ensures
        find(s, k) is None <==> forall|i: int| 0 <= i < s.len() ==> s[i].0 != k,
        find(s, k) is Some ==> exists|i: int|
            0 <= i < s.len() && s[i].0 == k && find(s, k) == Some(s[i].1) && forall|j: int|
                0 <= j < i ==> s[j].0 != k,
    decreases s.len(),
{
    if s.len() > 0 {
        lemma_find_index(s.drop_first(), k);
        if s[0].0 != k {
            if find(s, k) is Some {
                let i = choose|i: int|
                    0 <= i < s.drop_first().len() && s.drop_first()[i].0 == k && find(
                        s.drop_first(),
                        k,
                    ) == Some(s.drop_first()[i].1) && forall|j: int|
                        0 <= j < i ==> s.drop_first()[j].0 != k;
                assert(s[i + 1].0 == k);
                assert forall|j: int| 0 <= j < i + 1 implies s[j].0 != k by {
                    if j > 0 {
                        assert(s[j] == s.drop_first()[j - 1]);
                    }
                }
            } else {
                assert forall|i: int| 0 <= i < s.len() implies s[i].0 != k by {
                    if i > 0 {
                        assert(s[i] == s.drop_first()[i - 1]);
                    }
                }
            }
        }
    }
}

/// Appending a pair changes `find` only for a key that had no value.
pub proof fn lemma_find_push<K, V>(s: Seq<(K, V)>, e: (K, V), k: K)
    ensures
        find(s.push(e), k) == match find(s, k) {
            Some(v) => Some(v),
            None => if e.0 == k {
                Some(e.1)
            } else {
                None
            },
        },
    decreases s.len(),
{
    if s.len() == 0 {
        assert(s.push(e).drop_first() =~= Seq::<(K, V)>::empty());
        assert(find(Seq::<(K, V)>::empty(), k) is None);
        assert(s.push(e)[0] == e);
    } else {
        assert(s.push(e).drop_first() =~= s.drop_first().push(e));
        assert(s.push(e)[0] == s[0]);
        lemma_find_push(s.drop_first(), e, k);
    }
}

/// Replacing the value of the first pair with key `k` changes `find` at `k`
/// alone.
pub proof fn lemma_find_update<K, V>(s: Seq<(K, V)>, i: int, v: V, k2: K)
    requires
        0 <= i < s.len(),
        forall|j: int| 0 <= j < i ==> s[j].0 != s[i].0,
    ensures
        find(s.update(i, (s[i].0, v)), k2) == if k2 == s[i].0 {
            Some(v)
        } else {
            find(s, k2)
        },
    decreases i,
{
    let k = s[i].0;
    let u = s.update(i, (k, v));
    if i == 0 {
        assert(u.drop_first() =~= s.drop_first());
    } else {
        assert(u.drop_first() =~= s.drop_first().update(i - 1, (k, v)));
        assert(s.drop_first()[i - 1] == s[i]);
        lemma_find_update(s.drop_first(), i - 1, v, k2);
    }
}

/// Removing the pair at `i`, the only one with its key, leaves `find` at
/// every other key as it was and gives nothing at that key.
pub proof fn lemma_find_remove<K, V>(s: Seq<(K, V)>, i: int, k2: K)
    requires
        0 <= i < s.len(),
        keys_unique(s),
    ensures
        find(s.remove(i), k2) == if k2 == s[i].0 {
            None
        } else {
            find(s, k2)
        },
    decreases i,
{
    let r = s.remove(i);
    if i == 0 {
        assert(r =~= s.drop_first());
        if k2 == s[0].0 {
            lemma_find_index(r, k2);
            assert forall|j: int| 0 <= j < r.len() implies r[j].0 != k2 by {
                assert(r[j] == s[j + 1]);
            }
        }
    } else {
        assert(r.drop_first() =~= s.drop_first().remove(i - 1));
        assert(r[0] == s[0]);
        assert(keys_unique(s.drop_first())) by {
            assert forall|a: int, b: int|
                0 <= a < b < s.drop_first().len() implies s.drop_first()[a].0 != s.drop_first()[b].0 by {
                assert(s.drop_first()[a] == s[a + 1]);
                assert(s.drop_first()[b] == s[b + 1]);
            }
        }
        assert(s.drop_first()[i - 1] == s[i]);
        lemma_find_remove(s.drop_first(), i - 1, k2);
    }
}

} // verus!
