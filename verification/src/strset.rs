//! A duplicate-free, insertion-ordered collection of `String` labels,
//! used for the set of locked type labels.

use vstd::prelude::*;

verus! {

/// The views of a sequence of strings.
pub open spec fn strs(v: Seq<String>) -> Seq<Seq<char>> {
    v.map_values(|s: String| s@)
}

/// True when no label occurs twice.
pub open spec fn labels_distinct(v: Seq<String>) -> bool {
    forall|i: int, j: int| 0 <= i < j < v.len() ==> v[i]@ != v[j]@
}

/// `post` holds the labels of `pre` plus `x`.
pub open spec fn label_added(post: Seq<String>, pre: Seq<String>, x: Seq<char>) -> bool {
    forall|y: Seq<char>| strs(post).contains(y) <==> (strs(pre).contains(y) || y == x)
}

/// `post` holds the labels of `pre` except `x`.
pub open spec fn label_removed(post: Seq<String>, pre: Seq<String>, x: Seq<char>) -> bool {
    forall|y: Seq<char>| strs(post).contains(y) <==> (strs(pre).contains(y) && y != x)
}

/// Membership test by linear scan.
pub fn labels_contain(v: &Vec<String>, x: &String) -> (r: bool)
    ensures
        r == strs(v@).contains(x@),
{
    let n = v.len();
    let mut i: usize = 0;
    while i < n
        invariant
            n == v@.len(),
            0 <= i <= n,
            forall|j: int| 0 <= j < i ==> v@[j]@ != x@,
        decreases n - i,
    {
        if v[i] == *x {
            assert(strs(v@)[i as int] == x@);
            return true;
        }
        i = i + 1;
    }
    assert forall|j: int| 0 <= j < strs(v@).len() implies strs(v@)[j] != x@ by {
        assert(v@[j]@ != x@);
    }
    false
}

/// Adds a label unless it is already present.
pub fn labels_insert(v: &mut Vec<String>, x: String)
    requires
        labels_distinct(old(v)@),
    ensures
        labels_distinct(final(v)@),
        label_added(final(v)@, old(v)@, x@),
        strs(old(v)@).contains(x@) ==> final(v)@ == old(v)@,
        !strs(old(v)@).contains(x@) ==> final(v)@ == old(v)@.push(x),
{
    let ghost pre = v@;
    if !labels_contain(v, &x) {
        let ghost xv = x@;
        v.push(x);
        proof {
            assert forall|i: int, j: int| 0 <= i < j < v@.len() implies v@[i]@ != v@[j]@ by {
                if j == v@.len() - 1 {
                    assert(strs(pre)[i] == pre[i]@);
                }
            }
            assert(label_added(v@, pre, xv)) by {
                assert(strs(v@) =~= strs(pre).push(xv));
                assert forall|y: Seq<char>|
                    strs(v@).contains(y) <==> (strs(pre).contains(y) || y == xv) by {
                    if strs(pre).contains(y) {
                        let i = choose|i: int| 0 <= i < strs(pre).len() && strs(pre)[i] == y;
                        assert(strs(v@)[i] == y);
                    } else if y == xv {
                        assert(strs(v@)[strs(v@).len() - 1] == y);
                    } else if strs(v@).contains(y) {
                        let i = choose|i: int| 0 <= i < strs(v@).len() && strs(v@)[i] == y;
                        if i < strs(pre).len() {
                            assert(strs(pre)[i] == y);
                        }
                    }
                }
            }
        }
    } else {
        proof {
            assert(label_added(v@, pre, x@)) by {
                assert forall|y: Seq<char>|
                    strs(v@).contains(y) <==> (strs(pre).contains(y) || y == x@) by {
                    if y == x@ {
                        assert(strs(v@).contains(y));
                    }
                }
            }
        }
    }
}

/// Removes a label if present, keeping the order of the rest.
pub fn labels_remove(v: &mut Vec<String>, x: &String)
    requires
        labels_distinct(old(v)@),
    ensures
        labels_distinct(final(v)@),
        label_removed(final(v)@, old(v)@, x@),
{
    let ghost pre = v@;
    let n = v.len();
    let mut i: usize = 0;
    while i < n
        invariant
            n == v@.len(),
            v@ == pre,
            pre == old(v)@,
            0 <= i <= n,
            labels_distinct(pre),
            forall|j: int| 0 <= j < i ==> pre[j]@ != x@,
        decreases n - i,
    {
        if v[i] == *x {
            v.remove(i);
            proof {
                assert(v@ =~= pre.subrange(0, i as int) + pre.subrange(i + 1, pre.len() as int));
                assert forall|a: int, b: int| 0 <= a < b < v@.len() implies v@[a]@ != v@[b]@ by {
                    let pa: int = if a < i { a } else { a + 1 };
                    let pb: int = if b < i { b } else { b + 1 };
                    assert(v@[a] == pre[pa]);
                    assert(v@[b] == pre[pb]);
                }
                assert(label_removed(v@, pre, x@)) by {
                    assert forall|y: Seq<char>|
                        strs(v@).contains(y) <==> (strs(pre).contains(y) && y != x@) by {
                        if strs(v@).contains(y) {
                            let k = choose|k: int| 0 <= k < strs(v@).len() && strs(v@)[k] == y;
                            let pk: int = if k < i { k } else { k + 1 };
                            assert(v@[k] == pre[pk]);
                            assert(strs(pre)[pk] == y);
                            assert(strs(pre).contains(y));
                            assert(pre[i as int]@ == x@);
                            assert(pk != i);
                            if pk < i {
                                assert(pre[pk]@ != pre[i as int]@);
                            } else {
                                assert(pre[i as int]@ != pre[pk]@);
                            }
                            assert(y != x@);
                        }
                        if strs(pre).contains(y) && y != x@ {
                            let k = choose|k: int| 0 <= k < strs(pre).len() && strs(pre)[k] == y;
                            assert(pre[k]@ == y);
                            assert(k != i);
                            if k < i {
                                assert(v@[k] == pre[k]);
                                assert(strs(v@)[k] == y);
                            } else {
                                assert(v@[k - 1] == pre[k]);
                                assert(strs(v@)[k - 1] == y);
                            }
                        }
                    }
                }
            }
            return;
        }
        i = i + 1;
    }
    proof {
        assert(label_removed(v@, pre, x@)) by {
            assert forall|y: Seq<char>|
                strs(v@).contains(y) <==> (strs(pre).contains(y) && y != x@) by {
                if strs(pre).contains(y) && y == x@ {
                    let k = choose|k: int| 0 <= k < strs(pre).len() && strs(pre)[k] == y;
                    assert(pre[k]@ != x@);
                }
            }
        }
    }
}

} // verus!
