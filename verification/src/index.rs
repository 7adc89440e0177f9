//! Derived one-to-many indices: an account or type label mapped to the
//! ordered, duplicate-free list of token identifiers associated with it.
//!
//! A per-key entry is allocated on first insertion and never reclaimed, even
//! when emptied; an emptied entry stays as a zero-length placeholder.

use vstd::prelude::*;
use crate::assoc::{
    find, keys_distinct, assoc_position, lemma_find_push, lemma_find_update,
    lemma_find_some_iff,
};
use crate::strset::strs;

verus! {

/// The identifiers indexed under `key`; an unknown key yields the empty
/// sequence, indistinguishable from an allocated empty entry.
pub open spec fn ids_of(idx: Seq<(String, Vec<String>)>, key: Seq<char>) -> Seq<Seq<char>> {
    match find(idx, key) {
        Some(v) => strs(v@),
        None => Seq::empty(),
    }
}

/// No identifier occurs twice.
pub open spec fn views_distinct(s: Seq<Seq<char>>) -> bool {
    forall|i: int, j: int| 0 <= i < j < s.len() ==> s[i] != s[j]
}

/// Outer keys are distinct and every entry is duplicate-free.
pub open spec fn index_wf(idx: Seq<(String, Vec<String>)>) -> bool {
    &&& keys_distinct(idx)
    &&& forall|k: Seq<char>| views_distinct(#[trigger] ids_of(idx, k))
}

/// Every key other than `key` reads the same in `post` as in `pre`.
pub open spec fn others_same(
    post: Seq<(String, Vec<String>)>,
    pre: Seq<(String, Vec<String>)>,
    key: Seq<char>,
) -> bool {
    forall|k: Seq<char>| k != key ==> #[trigger] ids_of(post, k) == ids_of(pre, k)
}

/// `post` is `pre` with the single occurrence of `x` taken out.
pub open spec fn seq_removed(post: Seq<Seq<char>>, pre: Seq<Seq<char>>, x: Seq<char>) -> bool {
    exists|j: int| 0 <= j < pre.len() && pre[j] == x && post == pre.remove(j)
}

/// With a duplicate-free source, removal is exactly a membership filter.
pub proof fn lemma_seq_removed_contains(post: Seq<Seq<char>>, pre: Seq<Seq<char>>, x: Seq<char>)
    requires
        views_distinct(pre),
        seq_removed(post, pre, x),
    ensures
        views_distinct(post),
        post.len() == pre.len() - 1,
        forall|y: Seq<char>| post.contains(y) <==> (pre.contains(y) && y != x),
{
    let j = choose|j: int| 0 <= j < pre.len() && pre[j] == x && post == pre.remove(j);
    assert(post =~= pre.subrange(0, j) + pre.subrange(j + 1, pre.len() as int));
    assert forall|a: int, b: int| 0 <= a < b < post.len() implies post[a] != post[b] by {
        let pa: int = if a < j { a } else { a + 1 };
        let pb: int = if b < j { b } else { b + 1 };
        assert(post[a] == pre[pa]);
        assert(post[b] == pre[pb]);
    }
    assert forall|y: Seq<char>| post.contains(y) <==> (pre.contains(y) && y != x) by {
        if post.contains(y) {
            let k = choose|k: int| 0 <= k < post.len() && post[k] == y;
            let pk: int = if k < j { k } else { k + 1 };
            assert(post[k] == pre[pk]);
            assert(pre[pk] == y);
            assert(pre.contains(y));
            assert(pk != j);
            if pk < j {
                assert(pre[pk] != pre[j]);
            } else {
                assert(pre[j] != pre[pk]);
            }
        }
        if pre.contains(y) && y != x {
            let k = choose|k: int| 0 <= k < pre.len() && pre[k] == y;
            assert(k != j);
            if k < j {
                assert(post[k] == pre[k]);
            } else {
                assert(post[k - 1] == pre[k]);
            }
        }
    }
}

/// Membership in a pushed sequence.
pub proof fn lemma_push_contains(s: Seq<Seq<char>>, x: Seq<char>, y: Seq<char>)
    ensures
        s.push(x).contains(y) <==> (s.contains(y) || y == x),
{
    if s.contains(y) {
        let i = choose|i: int| 0 <= i < s.len() && s[i] == y;
        assert(s.push(x)[i] == y);
    }
    if y == x {
        assert(s.push(x)[s.len() as int] == y);
    }
    if s.push(x).contains(y) {
        let i = choose|i: int| 0 <= i < s.push(x).len() && s.push(x)[i] == y;
        if i < s.len() {
            assert(s[i] == y);
        }
    }
}

/// Inserts `id` under `key`, allocating the entry on first use.
pub fn index_insert(idx: &mut Vec<(String, Vec<String>)>, key: &String, id: String)
    requires
        index_wf(old(idx)@),
        !ids_of(old(idx)@, key@).contains(id@),
    ensures
        index_wf(final(idx)@),
        ids_of(final(idx)@, key@) == ids_of(old(idx)@, key@).push(id@),
        others_same(final(idx)@, old(idx)@, key@),
{
    let ghost pre = idx@;
    let ghost idv = id@;
    match assoc_position(idx, key) {
        Some(i) => {
            let mut entry = idx.remove(i);
            let ghost oldids = entry.1@;
            entry.1.push(id);
            let ghost newids = entry.1@;
            let ghost p = (entry.0, entry.1);
            idx.insert(i, entry);
            proof {
                assert(idx@ =~= pre.update(i as int, p));
                assert(strs(oldids) == ids_of(pre, key@));
                assert(strs(newids) =~= strs(oldids).push(idv));
                crate::assoc::lemma_update_keeps_keys_distinct(pre, i as int, p);
                assert forall|k: Seq<char>|
                    #[trigger] ids_of(idx@, k) == if k == key@ {
                        ids_of(pre, k).push(idv)
                    } else {
                        ids_of(pre, k)
                    } by {
                    lemma_find_update(pre, i as int, p, k);
                }
                assert forall|k: Seq<char>| views_distinct(#[trigger] ids_of(idx@, k)) by {
                    if k == key@ {
                        assert(views_distinct(ids_of(pre, k)));
                        let s = ids_of(pre, k);
                        assert forall|a: int, b: int|
                            0 <= a < b < s.push(idv).len() implies s.push(idv)[a] != s.push(
                            idv,
                        )[b] by {
                            if b == s.len() {
                                assert(s.push(idv)[a] == s[a]);
                                assert(s.contains(s[a]));
                            }
                        }
                    }
                }
            }
        },
        None => {
            let mut fresh: Vec<String> = Vec::new();
            fresh.push(id);
            let k0 = key.clone();
            let ghost pr = (k0, fresh);
            idx.push((k0, fresh));
            proof {
                assert(idx@ =~= pre.push(pr));
                assert(strs(pr.1@) =~= Seq::empty().push(idv));
                assert(ids_of(pre, key@) == Seq::<Seq<char>>::empty());
                assert forall|k: Seq<char>|
                    #[trigger] ids_of(idx@, k) == if k == key@ {
                        ids_of(pre, k).push(idv)
                    } else {
                        ids_of(pre, k)
                    } by {
                    lemma_find_push(pre, pr, k);
                }
                assert(keys_distinct(idx@)) by {
                    crate::assoc::lemma_push_keeps_keys_distinct(pre, pr);
                }
                assert forall|k: Seq<char>| views_distinct(#[trigger] ids_of(idx@, k)) by {
                    if k == key@ {
                        assert(ids_of(idx@, k) =~= Seq::empty().push(idv));
                    }
                }
            }
        },
    }
}

/// Removes `id` from the entry under `key`; the entry itself stays, even
/// when this empties it.
pub fn index_remove(idx: &mut Vec<(String, Vec<String>)>, key: &String, id: &String)
    requires
        index_wf(old(idx)@),
        ids_of(old(idx)@, key@).contains(id@),
    ensures
        index_wf(final(idx)@),
        seq_removed(ids_of(final(idx)@, key@), ids_of(old(idx)@, key@), id@),
        others_same(final(idx)@, old(idx)@, key@),
{
    let ghost pre = idx@;
    let ghost idv = id@;
    proof {
        if find(pre, key@) is None {
            assert(ids_of(pre, key@) == Seq::<Seq<char>>::empty());
        }
    }
    let pos = assoc_position(idx, key);
    let i = pos.unwrap();
    let mut entry = idx.remove(i);
    let ghost oldids = entry.1@;
    assert(strs(oldids) == ids_of(pre, key@));

    // find the identifier inside the entry
    let n = entry.1.len();
    let mut j: usize = 0;
    let mut found: usize = 0;
    let mut have: bool = false;
    while j < n && !have
        invariant
            n == entry.1@.len(),
            entry.1@ == oldids,
            idv == id@,
            0 <= j <= n,
            !have ==> forall|q: int| 0 <= q < j ==> oldids[q]@ != idv,
            have ==> found < n && oldids[found as int]@ == idv,
        decreases n - j + (if have { 0int } else { 1int }),
    {
        if entry.1[j] == *id {
            found = j;
            have = true;
        } else {
            j = j + 1;
        }
    }
    proof {
        if !have {
            assert forall|q: int| 0 <= q < strs(oldids).len() implies strs(oldids)[q] != idv by {
                assert(oldids[q]@ != idv);
            }
            assert(!strs(oldids).contains(idv));
            assert(false);
        }
    }
    let ghost fj = found as int;
    entry.1.remove(found);
    let ghost newids = entry.1@;
    let ghost p = (entry.0, entry.1);
    idx.insert(i, entry);
    proof {
        assert(idx@ =~= pre.update(i as int, p));
        crate::assoc::lemma_update_keeps_keys_distinct(pre, i as int, p);
        assert(strs(newids) =~= strs(oldids).remove(fj)) by {
            assert(newids =~= oldids.remove(fj));
            assert(newids.len() == oldids.len() - 1);
            assert forall|q: int| 0 <= q < strs(newids).len() implies strs(newids)[q] == strs(
                oldids,
            ).remove(fj)[q] by {
                if q < fj {
                    assert(newids[q] == oldids[q]);
                } else {
                    assert(newids[q] == oldids[q + 1]);
                }
            }
        }
        assert(strs(oldids)[fj] == idv);
        assert(seq_removed(strs(newids), strs(oldids), idv));
        assert forall|k: Seq<char>|
            #[trigger] ids_of(idx@, k) == if k == key@ {
                strs(newids)
            } else {
                ids_of(pre, k)
            } by {
            lemma_find_update(pre, i as int, p, k);
        }
        assert forall|k: Seq<char>| views_distinct(#[trigger] ids_of(idx@, k)) by {
            if k == key@ {
                lemma_seq_removed_contains(strs(newids), strs(oldids), idv);
            }
        }
    }
}

/// Reads the entry under `key`, or nothing when the key is unknown.
pub fn index_get<'a>(idx: &'a Vec<(String, Vec<String>)>, key: &String) -> (r: Option<
    &'a Vec<String>,
>)
    requires
        index_wf(idx@),
    ensures
        match r {
            Some(v) => strs(v@) == ids_of(idx@, key@),
            None => ids_of(idx@, key@) == Seq::<Seq<char>>::empty(),
        },
{
    match crate::assoc::assoc_get(idx, key) {
        Some(v) => Some(v),
        None => None,
    }
}

/// The number of identifiers under `key`.
pub fn index_count(idx: &Vec<(String, Vec<String>)>, key: &String) -> (r: u64)
    requires
        index_wf(idx@),
    ensures
        r == ids_of(idx@, key@).len(),
{
    match index_get(idx, key) {
        Some(v) => v.len() as u64,
        None => 0,
    }
}

} // verus!
