use vstd::prelude::*;

verus! {

/// The per-user, per-tier and per-category records are externally keyed
/// tables. This module gives their common abstraction: an association
/// sequence read through first-match lookup, kept free of duplicate keys.
///
/// First-match lookup of `key` in an association sequence.
pub open spec fn assoc_lookup<K, V>(s: Seq<(K, V)>, key: K) -> Option<V>
    decreases s.len(),
{
    if s.len() == 0 {
        None
    } else if s[0].0 == key {
        Some(s[0].1)
    } else {
        assoc_lookup(s.drop_first(), key)
    }
}

/// No two entries carry the same key.
pub open spec fn distinct_keys<K, V>(s: Seq<(K, V)>) -> bool {
    forall|i: int, j: int| 0 <= i < j < s.len() ==> (#[trigger] s[i]).0 != (#[trigger] s[j]).0
}

/// If the entries before position `i` miss the key and entry `i` carries it,
/// lookup returns entry `i`.
pub proof fn lemma_lookup_at<K, V>(s: Seq<(K, V)>, i: int)
    requires
        0 <= i < s.len(),
        forall|j: int| 0 <= j < i ==> (#[trigger] s[j]).0 != s[i].0,
    ensures
        assoc_lookup(s, s[i].0) == Some(s[i].1),
    decreases i,
{
    if i > 0 {
        let t = s.drop_first();
        assert(forall|j: int| 0 <= j < i - 1 ==> (#[trigger] t[j]).0 != t[i - 1].0);
        lemma_lookup_at(t, i - 1);
    }
}

/// If no entry carries the key, lookup misses.
pub proof fn lemma_lookup_none<K, V>(s: Seq<(K, V)>, key: K)
    requires
        forall|j: int| 0 <= j < s.len() ==> (#[trigger] s[j]).0 != key,
    ensures
        assoc_lookup(s, key) is None,
    decreases s.len(),
{
    if s.len() > 0 {
        lemma_lookup_none(s.drop_first(), key);
    }
}

/// Conversely, a missed lookup means no entry carries the key.
pub proof fn lemma_lookup_none_inverse<K, V>(s: Seq<(K, V)>, key: K)
    requires
        assoc_lookup(s, key) is None,
    ensures
        forall|j: int| 0 <= j < s.len() ==> (#[trigger] s[j]).0 != key,
    decreases s.len(),
{
    if s.len() > 0 {
        lemma_lookup_none_inverse(s.drop_first(), key);
        assert forall|j: int| 0 <= j < s.len() implies (#[trigger] s[j]).0 != key by {
            if j > 0 {
                assert(s.drop_first()[j - 1] == s[j]);
            }
        }
    }
}

/// Overwriting the first entry that carries a key changes that key's lookup
/// and no other.
pub proof fn lemma_lookup_update<K, V>(s: Seq<(K, V)>, i: int, v: V, k: K)
    requires
        0 <= i < s.len(),
        forall|j: int| 0 <= j < i ==> (#[trigger] s[j]).0 != s[i].0,
    ensures
        assoc_lookup(s.update(i, (s[i].0, v)), k) == if k == s[i].0 {
            Some(v)
        } else {
            assoc_lookup(s, k)
        },
    decreases i,
{
    let u = s.update(i, (s[i].0, v));
    if i == 0 {
        if k != s[0].0 {
            assert(u.drop_first() =~= s.drop_first());
        }
    } else {
        assert(u.drop_first() =~= s.drop_first().update(i - 1, (s[i].0, v)));
        assert(s.drop_first()[i - 1] == s[i]);
        lemma_lookup_update(s.drop_first(), i - 1, v, k);
    }
}

/// Appending an entry for a key that was absent defines that key's lookup
/// and leaves every other key's lookup alone.
pub proof fn lemma_lookup_push<K, V>(s: Seq<(K, V)>, key: K, v: V, k: K)
    requires
        assoc_lookup(s, key) is None,
    ensures
        assoc_lookup(s.push((key, v)), k) == if k == key {
            Some(v)
        } else {
            assoc_lookup(s, k)
        },
    decreases s.len(),
{
    let u = s.push((key, v));
    if s.len() == 0 {
        if k != key {
            assert(u.drop_first() =~= s);
        }
    } else {
        assert(u.drop_first() =~= s.drop_first().push((key, v)));
        lemma_lookup_push(s.drop_first(), key, v, k);
    }
}

/// Forall-shaped form of `lemma_lookup_update`, quantified over every key.
pub proof fn lemma_lookup_update_all<K, V>(s: Seq<(K, V)>, i: int, v: V)
    requires
        0 <= i < s.len(),
        forall|j: int| 0 <= j < i ==> (#[trigger] s[j]).0 != s[i].0,
    ensures
        forall|k: K|
            #![trigger assoc_lookup(s.update(i, (s[i].0, v)), k)]
            assoc_lookup(s.update(i, (s[i].0, v)), k) == if k == s[i].0 {
                Some(v)
            } else {
                assoc_lookup(s, k)
            },
{
    assert forall|k: K|
        #![trigger assoc_lookup(s.update(i, (s[i].0, v)), k)]
        true implies assoc_lookup(s.update(i, (s[i].0, v)), k) == if k == s[i].0 {
        Some(v)
    } else {
        assoc_lookup(s, k)
    } by {
        lemma_lookup_update(s, i, v, k);
    }
}

/// Forall-shaped form of `lemma_lookup_push`, quantified over every key.
pub proof fn lemma_lookup_push_all<K, V>(s: Seq<(K, V)>, key: K, v: V)
    requires
        assoc_lookup(s, key) is None,
    ensures
        forall|k: K|
            #![trigger assoc_lookup(s.push((key, v)), k)]
            assoc_lookup(s.push((key, v)), k) == if k == key {
                Some(v)
            } else {
                assoc_lookup(s, k)
            },
        distinct_keys(s) ==> distinct_keys(s.push((key, v))),
{
    assert forall|k: K|
        #![trigger assoc_lookup(s.push((key, v)), k)]
        true implies assoc_lookup(s.push((key, v)), k) == if k == key {
        Some(v)
    } else {
        assoc_lookup(s, k)
    } by {
        lemma_lookup_push(s, key, v, k);
    }
    if distinct_keys(s) {
        lemma_lookup_none_inverse(s, key);
        let u = s.push((key, v));
        assert forall|i: int, j: int|
            0 <= i < j < u.len() implies (#[trigger] u[i]).0 != (#[trigger] u[j]).0 by {
            if j < u.len() - 1 {
                assert(s[i] == u[i]);
                assert(s[j] == u[j]);
            } else if i < u.len() - 1 {
                assert(s[i] == u[i]);
            }
        }
    }
}

} // verus!
