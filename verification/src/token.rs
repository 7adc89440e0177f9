//! Token records, hydrated token views, profiles, and royalty-table
//! arithmetic.

use vstd::prelude::*;
use crate::assoc::keys_distinct;

verus! {

/// The authoritative record for one token. The creator and the type label
/// are fixed for the token's lifetime; only the owner can change.
pub struct Token {
    pub owner_id: String,
    pub creator_id: String,
    pub token_type: Option<String>,
    /// Royalty basis points per payout account; keys are pairwise distinct.
    pub royalty: Vec<(String, u32)>,
}

/// A fully hydrated token as handed to enumeration callers.
pub struct TokenView {
    pub token_id: String,
    pub owner_id: String,
    pub creator_id: String,
    pub token_type: Option<String>,
    pub royalty: Vec<(String, u32)>,
}

/// A descriptive account profile.
pub struct Profile {
    pub bio: String,
    pub image: String,
}

/// The view of an optional label.
pub open spec fn opt_label(o: Option<String>) -> Option<Seq<char>> {
    match o {
        Some(s) => Some(s@),
        None => None,
    }
}

/// `v` presents exactly the record `t` under identifier `id`.
pub open spec fn is_view_of(v: TokenView, id: Seq<char>, t: Token) -> bool {
    &&& v.token_id@ == id
    &&& v.owner_id@ == t.owner_id@
    &&& v.creator_id@ == t.creator_id@
    &&& opt_label(v.token_type) == opt_label(t.token_type)
    &&& v.royalty@ == t.royalty@
}

/// The total basis points of a royalty table.
pub open spec fn royalty_sum(s: Seq<(String, u32)>) -> int
    decreases s.len(),
{
    if s.len() == 0 {
        0
    } else {
        royalty_sum(s.drop_last()) + s.last().1
    }
}

pub proof fn lemma_royalty_sum_take_step(s: Seq<(String, u32)>, i: int)
    requires
        0 <= i < s.len(),
    ensures
        royalty_sum(s.take(i + 1)) == royalty_sum(s.take(i)) + s[i].1,
{
    assert(s.take(i + 1).drop_last() =~= s.take(i));
    assert(s.take(i + 1).last() == s[i]);
}

pub proof fn lemma_royalty_sum_take_le(s: Seq<(String, u32)>, i: int)
    requires
        0 <= i <= s.len(),
    ensures
        royalty_sum(s.take(i)) <= royalty_sum(s),
    decreases s.len() - i,
{
    if i == s.len() {
        assert(s.take(i) =~= s);
    } else {
        lemma_royalty_sum_take_step(s, i);
        lemma_royalty_sum_take_le(s, i + 1);
    }
}

/// Decides whether the table's total stays within `cap` basis points.
pub fn royalty_within(royalty: &Vec<(String, u32)>, cap: u32) -> (r: bool)
    ensures
        r == (royalty_sum(royalty@) <= cap as int),
{
    let n = royalty.len();
    let mut acc: u64 = 0;
    let mut i: usize = 0;
    while i < n
        invariant
            n == royalty@.len(),
            0 <= i <= n,
            acc == royalty_sum(royalty@.take(i as int)),
            acc <= cap as u64,
        decreases n - i,
    {
        let v = royalty[i].1;
        proof {
            lemma_royalty_sum_take_step(royalty@, i as int);
        }
        acc = acc + (v as u64);
        i = i + 1;
        if acc > cap as u64 {
            proof {
                lemma_royalty_sum_take_le(royalty@, i as int);
            }
            return false;
        }
    }
    proof {
        assert(royalty@.take(n as int) =~= royalty@);
    }
    true
}

/// Copies a royalty table (or any string-keyed table of copyable values).
pub fn clone_pairs<V: Copy>(v: &Vec<(String, V)>) -> (c: Vec<(String, V)>)
    ensures
        c@ == v@,
{
    let n = v.len();
    let mut c: Vec<(String, V)> = Vec::new();
    let mut i: usize = 0;
    while i < n
        invariant
            n == v@.len(),
            0 <= i <= n,
            c@ == v@.take(i as int),
        decreases n - i,
    {
        c.push((v[i].0.clone(), v[i].1));
        proof {
            assert(c@ =~= v@.take(i as int + 1));
        }
        i = i + 1;
    }
    proof {
        assert(v@.take(n as int) =~= v@);
    }
    c
}

/// Copies a list of labels.
pub fn clone_labels(v: &Vec<String>) -> (c: Vec<String>)
    ensures
        c@ == v@,
{
    let n = v.len();
    let mut c: Vec<String> = Vec::new();
    let mut i: usize = 0;
    while i < n
        invariant
            n == v@.len(),
            0 <= i <= n,
            c@ == v@.take(i as int),
        decreases n - i,
    {
        c.push(v[i].clone());
        proof {
            assert(c@ =~= v@.take(i as int + 1));
        }
        i = i + 1;
    }
    proof {
        assert(v@.take(n as int) =~= v@);
    }
    c
}

/// Copies an optional label.
pub fn clone_opt_label(o: &Option<String>) -> (c: Option<String>)
    ensures
        c == *o,
{
    match o {
        Some(s) => Some(s.clone()),
        None => None,
    }
}

/// Hydrates the view of one token record.
pub fn make_view(token_id: &String, t: &Token) -> (v: TokenView)
    ensures
        is_view_of(v, token_id@, *t),
{
    TokenView {
        token_id: token_id.clone(),
        owner_id: t.owner_id.clone(),
        creator_id: t.creator_id.clone(),
        token_type: clone_opt_label(&t.token_type),
        royalty: clone_pairs(&t.royalty),
    }
}

/// A token record is well formed when its royalty keys are distinct.
pub open spec fn token_wf(t: Token) -> bool {
    keys_distinct(t.royalty@)
}

} // verus!
