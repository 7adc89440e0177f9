//! Insertion-ordered association lists keyed by `String`.
//!
//! The registry's persistent maps preserve insertion order and never shrink,
//! so they are modeled as vectors of key/value pairs with pairwise-distinct
//! keys. `find` is the mathematical reading of a lookup; the executable
//! operations are specified against it.

use vstd::prelude::*;

verus! {

/// The value stored under key `k`, reading the list back to front.
/// With pairwise-distinct keys this is the unique entry for `k`.
pub open spec fn find<V>(s: Seq<(String, V)>, k: Seq<char>) -> Option<V>
    decreases s.len(),
{
    if s.len() == 0 {
        None
    } else if s.last().0@ == k {
        Some(s.last().1)
    } else {
        find(s.drop_last(), k)
    }
}

/// True when no two entries share a key.
pub open spec fn keys_distinct<V>(s: Seq<(String, V)>) -> bool {
    forall|i: int, j: int| 0 <= i < j < s.len() ==> s[i].0@ != s[j].0@
}

/// A key is present exactly when some entry carries it.
pub proof fn lemma_find_some_iff<V>(s: Seq<(String, V)>, k: Seq<char>)
    ensures
        find(s, k) is Some <==> exists|i: int| 0 <= i < s.len() && s[i].0@ == k,
    decreases s.len(),
{
    if s.len() > 0 {
        lemma_find_some_iff(s.drop_last(), k);
        if s.last().0@ == k {
            assert(s[s.len() - 1].0@ == k);
        } else if find(s.drop_last(), k) is Some {
            let i = choose|i: int| 0 <= i < s.drop_last().len() && s.drop_last()[i].0@ == k;
            assert(s[i].0@ == k);
        } else {
            assert forall|i: int| 0 <= i < s.len() implies s[i].0@ != k by {
                if i < s.len() - 1 {
                    assert(s.drop_last()[i].0@ != k);
                }
            }
        }
    }
}

/// With distinct keys, the entry at the first matching index is the one found.
pub proof fn lemma_find_at<V>(s: Seq<(String, V)>, k: Seq<char>, i: int)
    requires
        keys_distinct(s),
        0 <= i < s.len(),
        s[i].0@ == k,
    ensures
        find(s, k) == Some(s[i].1),
    decreases s.len(),
{
    if i == s.len() - 1 {
        assert(s.last().0@ == k);
    } else {
        assert(s.last().0@ != k);
        assert(s.drop_last()[i] == s[i]);
        lemma_find_at(s.drop_last(), k, i);
    }
}

/// Appending an entry with a fresh key leaves every other lookup unchanged.
pub proof fn lemma_find_push<V>(s: Seq<(String, V)>, p: (String, V), k: Seq<char>)
    ensures
        find(s.push(p), k) == if p.0@ == k {
            Some(p.1)
        } else {
            find(s, k)
        },
{
    assert(s.push(p).drop_last() =~= s);
    assert(s.push(p).last() == p);
}

/// Replacing the value at index `i` rewrites the lookup for that key alone,
/// provided the new entry keeps the old key.
pub proof fn lemma_find_update<V>(s: Seq<(String, V)>, i: int, p: (String, V), k: Seq<char>)
    requires
        keys_distinct(s),
        0 <= i < s.len(),
        p.0@ == s[i].0@,
    ensures
        find(s.update(i, p), k) == if s[i].0@ == k {
            Some(p.1)
        } else {
            find(s, k)
        },
    decreases s.len(),
{
    let t = s.update(i, p);
    if i == s.len() - 1 {
        assert(t.last() == p);
        assert(t.drop_last() =~= s.drop_last());
        if s[i].0@ != k {
            assert(s.last().0@ != k);
        } else {
            lemma_find_at(s, k, i);
        }
    } else {
        assert(t.last() == s.last());
        assert(t.drop_last() =~= s.drop_last().update(i, p));
        lemma_find_update(s.drop_last(), i, p, k);
        if s[i].0@ == k {
            assert(s.last().0@ != k);
        }
    }
}

/// Updating a value keeps the keys, hence their distinctness.
pub proof fn lemma_update_keeps_keys_distinct<V>(s: Seq<(String, V)>, i: int, p: (String, V))
    requires
        keys_distinct(s),
        0 <= i < s.len(),
        p.0@ == s[i].0@,
    ensures
        keys_distinct(s.update(i, p)),
{
}

/// Appending a fresh key preserves distinctness.
pub proof fn lemma_push_keeps_keys_distinct<V>(s: Seq<(String, V)>, p: (String, V))
    requires
        keys_distinct(s),
        find(s, p.0@) is None,
    ensures
        keys_distinct(s.push(p)),
{
    lemma_find_some_iff(s, p.0@);
}

/// Looking a key up in a prefix, one entry at a time.
pub proof fn lemma_find_take_step<V>(s: Seq<(String, V)>, i: int, k: Seq<char>)
    requires
        0 <= i < s.len(),
    ensures
        find(s.take(i + 1), k) == if s[i].0@ == k {
            Some(s[i].1)
        } else {
            find(s.take(i), k)
        },
{
    assert(s.take(i + 1).drop_last() =~= s.take(i));
    assert(s.take(i + 1).last() == s[i]);
}

/// The whole sequence is its own full-length prefix.
pub proof fn lemma_take_all<V>(s: Seq<(String, V)>)
    ensures
        s.take(s.len() as int) == s,
{
    assert(s.take(s.len() as int) =~= s);
}

/// Two lists with equal keys, position by position, relate their lookups
/// position by position.
pub proof fn lemma_find_mapped<V>(
    s2: Seq<(String, V)>,
    s1: Seq<(String, V)>,
    k: Seq<char>,
    rel: spec_fn(V, V) -> bool,
)
    requires
        s2.len() == s1.len(),
        forall|j: int| 0 <= j < s1.len() ==> #[trigger] s2[j].0@ == s1[j].0@,
        forall|j: int| 0 <= j < s1.len() ==> #[trigger] rel(s2[j].1, s1[j].1),
    ensures
        find(s1, k) is Some <==> find(s2, k) is Some,
        find(s1, k) is Some ==> rel(find(s2, k)->Some_0, find(s1, k)->Some_0),
    decreases s1.len(),
{
    if s1.len() > 0 {
        assert(s2.last().0@ == s1.last().0@);
        assert(rel(s2.last().1, s1.last().1));
        if s1.last().0@ != k {
            assert(s2.drop_last().len() == s1.drop_last().len());
            assert forall|j: int| 0 <= j < s1.drop_last().len() implies #[trigger] s2.drop_last()[j].0@
                == s1.drop_last()[j].0@ by {
                assert(s2[j].0@ == s1[j].0@);
            }
            assert forall|j: int| 0 <= j < s1.drop_last().len() implies #[trigger] rel(
                s2.drop_last()[j].1,
                s1.drop_last()[j].1,
            ) by {
                assert(rel(s2[j].1, s1[j].1));
            }
            lemma_find_mapped(s2.drop_last(), s1.drop_last(), k, rel);
        }
    }
}

/// Looks a key up by linear scan.
pub fn assoc_get<'a, V>(entries: &'a Vec<(String, V)>, key: &String) -> (r: Option<&'a V>)
    requires
        keys_distinct(entries@),
    ensures
        match r {
            Some(v) => find(entries@, key@) == Some(*v),
            None => find(entries@, key@) is None,
        },
{
    let n = entries.len();
    let mut i: usize = 0;
    while i < n
        invariant
            n == entries@.len(),
            0 <= i <= n,
            keys_distinct(entries@),
            forall|j: int| 0 <= j < i ==> entries@[j].0@ != key@,
        decreases n - i,
    {
        if entries[i].0 == *key {
            proof {
                lemma_find_at(entries@, key@, i as int);
            }
            return Some(&entries[i].1);
        }
        i = i + 1;
    }
    proof {
        lemma_find_some_iff(entries@, key@);
    }
    None
}

/// The index of the entry holding `key`, if any.
pub fn assoc_position<V>(entries: &Vec<(String, V)>, key: &String) -> (r: Option<usize>)
    requires
        keys_distinct(entries@),
    ensures
        match r {
            Some(i) => i < entries@.len() && entries@[i as int].0@ == key@
                && find(entries@, key@) == Some(entries@[i as int].1),
            None => find(entries@, key@) is None,
        },
{
    let n = entries.len();
    let mut i: usize = 0;
    while i < n
        invariant
            n == entries@.len(),
            0 <= i <= n,
            keys_distinct(entries@),
            forall|j: int| 0 <= j < i ==> entries@[j].0@ != key@,
        decreases n - i,
    {
        if entries[i].0 == *key {
            proof {
                lemma_find_at(entries@, key@, i as int);
            }
            return Some(i);
        }
        i = i + 1;
    }
    proof {
        lemma_find_some_iff(entries@, key@);
    }
    None
}

/// Writes `value` under `key`: in place when the key exists, appended
/// otherwise. Every other key reads as before.
pub fn assoc_set<V>(entries: &mut Vec<(String, V)>, key: &String, value: V)
    requires
        keys_distinct(old(entries)@),
    ensures
        keys_distinct(final(entries)@),
        find(final(entries)@, key@) == Some(value),
        forall|k: Seq<char>|
            k != key@ ==> #[trigger] find(final(entries)@, k) == find(old(entries)@, k),
        find(old(entries)@, key@) is Some ==> final(entries)@.len() == old(entries)@.len(),
        find(old(entries)@, key@) is None ==> final(entries)@.len() == old(entries)@.len() + 1,
    {
    let ghost pre = entries@;
    match assoc_position(entries, key) {
        Some(i) => {
            let entry = entries.remove(i);
            let ghost p = (entry.0, value);
            entries.insert(i, (entry.0, value));
            proof {
                assert(entries@ =~= pre.update(i as int, p));
                lemma_update_keeps_keys_distinct(pre, i as int, p);
                assert forall|k: Seq<char>|
                    #[trigger] find(entries@, k) == if k == key@ {
                        Some(value)
                    } else {
                        find(pre, k)
                    } by {
                    lemma_find_update(pre, i as int, p, k);
                }
            }
        },
        None => {
            let k0 = key.clone();
            let ghost p = (k0, value);
            entries.push((k0, value));
            proof {
                assert(entries@ =~= pre.push(p));
                lemma_push_keeps_keys_distinct(pre, p);
                assert forall|k: Seq<char>|
                    #[trigger] find(entries@, k) == if k == key@ {
                        Some(value)
                    } else {
                        find(pre, k)
                    } by {
                    lemma_find_push(pre, p, k);
                }
            }
        },
    }
}

} // verus!
