//! Association lists keyed by strings: the lookup model shared by the
//! key-value store and the health-check bookkeeping, with the lemmas that
//! relate in-place updates to the lookup function.
use vstd::prelude::*;

verus! {

/// The value stored under `key`: the first entry whose key reads `key`,
/// scanning from the front.
pub open spec fn alist_lookup<K: View<V = Seq<char>>, V>(s: Seq<(K, V)>, key: Seq<char>) -> Option<
    V,
>
    decreases s.len(),
{
    if s.len() == 0 {
        None
    } else if s[0].0@ == key {
        Some(s[0].1)
    } else {
        alist_lookup(s.drop_first(), key)
    }
}

/// The value stored under `key` in a model-level association list.
pub open spec fn vlist_lookup<V>(s: Seq<(Seq<char>, V)>, key: Seq<char>) -> Option<V>
    decreases s.len(),
{
    if s.len() == 0 {
        None
    } else if s[0].0 == key {
        Some(s[0].1)
    } else {
        vlist_lookup(s.drop_first(), key)
    }
}

/// When no entry carries `key`, the model-level lookup misses.
pub proof fn lemma_vlist_lookup_none<V>(s: Seq<(Seq<char>, V)>, key: Seq<char>)
    requires
        forall|j: int| 0 <= j < s.len() ==> s[j].0 != key,
    ensures
        vlist_lookup(s, key) is None,
    decreases s.len(),
{
    if s.len() > 0 {
        assert(forall|j: int| 0 <= j < s.drop_first().len() ==> s.drop_first()[j].0 != key);
        lemma_vlist_lookup_none(s.drop_first(), key);
    }
}

/// When `j` is the first entry carrying `key`, the model-level lookup
/// returns its value.
pub proof fn lemma_vlist_lookup_at<V>(s: Seq<(Seq<char>, V)>, key: Seq<char>, j: int)
    requires
        0 <= j < s.len(),
        s[j].0 == key,
        forall|jj: int| 0 <= jj < j ==> s[jj].0 != key,
    ensures
        vlist_lookup(s, key) == Some(s[j].1),
    decreases j,
{
    if j > 0 {
        assert(forall|jj: int| 0 <= jj < j - 1 ==> s.drop_first()[jj].0 != key);
        lemma_vlist_lookup_at(s.drop_first(), key, j - 1);
    }
}

/// When no entry carries `key`, the lookup misses.
pub proof fn lemma_alist_lookup_none<K: View<V = Seq<char>>, V>(s: Seq<(K, V)>, key: Seq<char>)
    requires
        forall|j: int| 0 <= j < s.len() ==> s[j].0@ != key,
    ensures
        alist_lookup(s, key) is None,
    decreases s.len(),
{
    if s.len() > 0 {
        assert(forall|j: int| 0 <= j < s.drop_first().len() ==> s.drop_first()[j].0@ != key);
        lemma_alist_lookup_none(s.drop_first(), key);
    }
}

/// When `j` is the first entry carrying `key`, the lookup returns its value.
pub proof fn lemma_alist_lookup_at<K: View<V = Seq<char>>, V>(s: Seq<(K, V)>, key: Seq<char>, j: int)
    requires
        0 <= j < s.len(),
        s[j].0@ == key,
        forall|jj: int| 0 <= jj < j ==> s[jj].0@ != key,
    ensures
        alist_lookup(s, key) == Some(s[j].1),
    decreases j,
{
    if j > 0 {
        assert(forall|jj: int| 0 <= jj < j - 1 ==> s.drop_first()[jj].0@ != key);
        lemma_alist_lookup_at(s.drop_first(), key, j - 1);
    }
}

/// Replacing the first entry that carries a key rebinds that key and leaves
/// every other key's binding unchanged.
pub proof fn lemma_alist_lookup_update<K: View<V = Seq<char>>, V>(
    s: Seq<(K, V)>,
    j: int,
    e: (K, V),
)
    requires
        0 <= j < s.len(),
        e.0@ == s[j].0@,
        forall|jj: int| 0 <= jj < j ==> s[jj].0@ != s[j].0@,
    ensures
        forall|k: Seq<char>|
            #[trigger] alist_lookup(s.update(j, e), k) == (if k == s[j].0@ {
                Some(e.1)
            } else {
                alist_lookup(s, k)
            }),
    decreases j,
{
    let s2 = s.update(j, e);
    if j == 0 {
        assert forall|k: Seq<char>|
            #[trigger] alist_lookup(s2, k) == (if k == s[0].0@ {
                Some(e.1)
            } else {
                alist_lookup(s, k)
            }) by {
            assert(s2[0] == e);
            assert(s2.drop_first() =~= s.drop_first());
        }
    } else {
        lemma_alist_lookup_update(s.drop_first(), j - 1, e);
        assert forall|k: Seq<char>|
            #[trigger] alist_lookup(s2, k) == (if k == s[j].0@ {
                Some(e.1)
            } else {
                alist_lookup(s, k)
            }) by {
            assert(s2[0] == s[0]);
            assert(s2.drop_first() =~= s.drop_first().update(j - 1, e));
            assert(alist_lookup(s.drop_first().update(j - 1, e), k) == (if k == s.drop_first()[j
                - 1].0@ {
                Some(e.1)
            } else {
                alist_lookup(s.drop_first(), k)
            }));
        }
    }
}

/// Appending an entry for a key that misses binds that key and leaves every
/// other key's binding unchanged.
pub proof fn lemma_alist_lookup_push<K: View<V = Seq<char>>, V>(s: Seq<(K, V)>, e: (K, V))
    requires
        alist_lookup(s, e.0@) is None,
    ensures
        forall|k: Seq<char>|
            #[trigger] alist_lookup(s.push(e), k) == (if k == e.0@ {
                Some(e.1)
            } else {
                alist_lookup(s, k)
            }),
    decreases s.len(),
{
    if s.len() == 0 {
        assert forall|k: Seq<char>|
            #[trigger] alist_lookup(s.push(e), k) == (if k == e.0@ {
                Some(e.1)
            } else {
                alist_lookup(s, k)
            }) by {
            assert(s.push(e)[0] == e);
            assert(s.push(e).drop_first() =~= s);
        }
    } else {
        assert(s[0].0@ != e.0@);
        assert(alist_lookup(s.drop_first(), e.0@) is None);
        lemma_alist_lookup_push(s.drop_first(), e);
        assert forall|k: Seq<char>|
            #[trigger] alist_lookup(s.push(e), k) == (if k == e.0@ {
                Some(e.1)
            } else {
                alist_lookup(s, k)
            }) by {
            assert(s.push(e)[0] == s[0]);
            assert(s.push(e).drop_first() =~= s.drop_first().push(e));
            assert(alist_lookup(s.drop_first().push(e), k) == (if k == e.0@ {
                Some(e.1)
            } else {
                alist_lookup(s.drop_first(), k)
            }));
            if s[0].0@ != k {
                assert(alist_lookup(s.push(e), k) == alist_lookup(s.push(e).drop_first(), k));
                assert(alist_lookup(s, k) == alist_lookup(s.drop_first(), k));
            }
        }
    }
}

} // verus!
