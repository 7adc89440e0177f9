//! Enumeration queries: absolute-offset pagination over the canonical store
//! and over single index entries, a reverse window measured from the end,
//! and batch resolution.

use vstd::prelude::*;
use crate::assoc::{assoc_get, lemma_find_at};
use crate::index::{ids_of, index_get, index_count};
use crate::registry::Contract;
use crate::strset::strs;
use crate::token::{TokenView, make_view, is_view_of};
use crate::RegistryError;

verus! {

/// How many items a forward page holds: `lim` items starting at `start`,
/// clipped to the collection; zero when the offset is at or past the end.
/// A limit of zero means an empty page, never "no limit".
pub open spec fn page_len(total: int, start: int, lim: int) -> int {
    if start >= total {
        0
    } else if lim <= total - start {
        lim
    } else {
        total - start
    }
}

/// The identifiers of `ids` whose tokens exist, in order.
pub open spec fn present_ids(c: Contract, ids: Seq<Seq<char>>) -> Seq<Seq<char>>
    decreases ids.len(),
{
    if ids.len() == 0 {
        Seq::empty()
    } else {
        let rest = present_ids(c, ids.drop_last());
        if c.token_of(ids.last()) is Some {
            rest.push(ids.last())
        } else {
            rest
        }
    }
}

impl Contract {
    /// Resolves one token to its hydrated view.
    pub fn nft_token(&self, token_id: &String) -> (r: Option<TokenView>)
        requires
            self.inv(),
        ensures
            match r {
                Some(v) => self.token_of(token_id@) is Some && is_view_of(
                    v,
                    token_id@,
                    self.token_of(token_id@)->Some_0,
                ),
                None => self.token_of(token_id@) is None,
            },
    {
        match assoc_get(&self.tokens_by_id, token_id) {
            Some(t) => Some(make_view(token_id, t)),
            None => None,
        }
    }

    /// The number of tokens ever registered.
    pub fn nft_total_supply(&self) -> (r: u64)
        ensures
            r == self.all_ids().len(),
    {
        proof {
            assert(self.all_ids().len() == self.tokens_by_id@.len());
        }
        self.tokens_by_id.len() as u64
    }

    /// A forward page over the canonical store. An absent offset means the
    /// start; an absent limit means zero, so an empty page.
    pub fn nft_tokens(&self, from_index: Option<u64>, limit: Option<u64>) -> (r: Vec<TokenView>)
        requires
            self.inv(),
        ensures
            ({
                let start = (match from_index {
                    Some(s) => s,
                    None => 0,
                }) as int;
                let lim = (match limit {
                    Some(l) => l,
                    None => 0,
                }) as int;
                &&& r@.len() == page_len(self.all_ids().len() as int, start, lim)
                &&& forall|k: int|
                    0 <= k < r@.len() ==> is_view_of(
                        #[trigger] r@[k],
                        self.all_ids()[start + k],
                        self.token_of(self.all_ids()[start + k])->Some_0,
                    )
            }),
    {
        let start: u64 = match from_index {
            Some(s) => s,
            None => 0,
        };
        let lim: u64 = match limit {
            Some(l) => l,
            None => 0,
        };
        let n = self.tokens_by_id.len();
        proof {
            assert(self.all_ids().len() == self.tokens_by_id@.len());
        }
        if start >= n as u64 {
            let empty: Vec<TokenView> = Vec::new();
            return empty;
        }
        let s = start as usize;
        let avail = n - s;
        let cnt: usize = if lim <= avail as u64 {
            lim as usize
        } else {
            avail
        };
        let mut out: Vec<TokenView> = Vec::new();
        let mut k: usize = 0;
        while k < cnt
            invariant
                self.inv(),
                n == self.tokens_by_id@.len(),
                self.all_ids().len() == n,
                s + cnt <= n,
                s == start as int,
                0 <= k <= cnt,
                out@.len() == k,
                forall|q: int|
                    0 <= q < k ==> is_view_of(
                        #[trigger] out@[q],
                        self.all_ids()[s + q],
                        self.token_of(self.all_ids()[s + q])->Some_0,
                    ),
            decreases cnt - k,
        {
            let idx = s + k;
            proof {
                lemma_find_at(self.tokens_by_id@, self.tokens_by_id@[idx as int].0@, idx as int);
                assert(self.all_ids()[idx as int] == self.tokens_by_id@[idx as int].0@);
            }
            let v = make_view(&self.tokens_by_id[idx].0, &self.tokens_by_id[idx].1);
            out.push(v);
            k = k + 1;
        }
        out
    }

    /// A reverse window: the `limit` tokens ending `from_index` places
    /// before the end, enumerated back to front. An offset at or beyond the
    /// collection length is rejected, not clamped.
    pub fn nft_tokens_from_end(&self, from_index: u64, limit: u64) -> (r: Result<
        Vec<TokenView>,
        RegistryError,
    >)
        requires
            self.inv(),
        ensures
            from_index >= self.all_ids().len() ==> r == Err::<Vec<TokenView>, RegistryError>(
                RegistryError::IllegalOffset,
            ),
            from_index < self.all_ids().len() ==> match r {
                Ok(out) => {
                    let total = self.all_ids().len() as int;
                    let avail = total - from_index;
                    let cnt = if limit as int <= avail {
                        limit as int
                    } else {
                        avail
                    };
                    &&& out@.len() == cnt
                    &&& forall|k: int|
                        0 <= k < cnt ==> is_view_of(
                            #[trigger] out@[k],
                            self.all_ids()[total - from_index - 1 - k],
                            self.token_of(self.all_ids()[total - from_index - 1 - k])->Some_0,
                        )
                },
                Err(_) => false,
            },
    {
        let n = self.tokens_by_id.len();
        proof {
            assert(self.all_ids().len() == self.tokens_by_id@.len());
        }
        if from_index >= n as u64 {
            return Err(RegistryError::IllegalOffset);
        }
        let fi = from_index as usize;
        let avail = n - fi;
        let cnt: usize = if limit <= avail as u64 {
            limit as usize
        } else {
            avail
        };
        let end = n - fi;
        let mut out: Vec<TokenView> = Vec::new();
        let mut k: usize = 0;
        while k < cnt
            invariant
                self.inv(),
                n == self.tokens_by_id@.len(),
                self.all_ids().len() == n,
                fi == from_index as int,
                end == n - fi,
                cnt <= end,
                0 <= k <= cnt,
                out@.len() == k,
                forall|q: int|
                    0 <= q < k ==> is_view_of(
                        #[trigger] out@[q],
                        self.all_ids()[end - 1 - q],
                        self.token_of(self.all_ids()[end - 1 - q])->Some_0,
                    ),
            decreases cnt - k,
        {
            let idx = end - 1 - k;
            proof {
                lemma_find_at(self.tokens_by_id@, self.tokens_by_id@[idx as int].0@, idx as int);
                assert(self.all_ids()[idx as int] == self.tokens_by_id@[idx as int].0@);
            }
            let v = make_view(&self.tokens_by_id[idx].0, &self.tokens_by_id[idx].1);
            out.push(v);
            k = k + 1;
        }
        Ok(out)
    }

    /// Resolves an explicit list of identifiers, silently omitting those
    /// absent from the canonical store.
    pub fn nft_tokens_batch(&self, token_ids: &Vec<String>) -> (r: Vec<TokenView>)
        requires
            self.inv(),
        ensures
            ({
                let present = present_ids(*self, strs(token_ids@));
                &&& r@.len() == present.len()
                &&& forall|k: int|
                    0 <= k < present.len() ==> is_view_of(
                        #[trigger] r@[k],
                        present[k],
                        self.token_of(present[k])->Some_0,
                    )
            }),
    {
        let n = token_ids.len();
        let mut out: Vec<TokenView> = Vec::new();
        let mut i: usize = 0;
        while i < n
            invariant
                self.inv(),
                n == token_ids@.len(),
                0 <= i <= n,
                ({
                    let present = present_ids(*self, strs(token_ids@).take(i as int));
                    &&& out@.len() == present.len()
                    &&& forall|k: int|
                        0 <= k < present.len() ==> is_view_of(
                            #[trigger] out@[k],
                            present[k],
                            self.token_of(present[k])->Some_0,
                        )
                }),
            decreases n - i,
        {
            let ghost prefix = strs(token_ids@).take(i as int);
            proof {
                assert(strs(token_ids@).take(i as int + 1).drop_last() =~= prefix);
                assert(strs(token_ids@).take(i as int + 1).last() == token_ids@[i as int]@);
            }
            match assoc_get(&self.tokens_by_id, &token_ids[i]) {
                Some(t) => {
                    let v = make_view(&token_ids[i], t);
                    out.push(v);
                },
                None => {},
            }
            i = i + 1;
        }
        proof {
            assert(strs(token_ids@).take(n as int) =~= strs(token_ids@));
        }
        out
    }

    /// How many tokens an account owns.
    pub fn nft_supply_for_owner(&self, account_id: &String) -> (r: u64)
        requires
            self.inv(),
        ensures
            r == self.owner_ids(account_id@).len(),
    {
        index_count(&self.tokens_per_owner, account_id)
    }

    /// How many tokens an account created.
    pub fn nft_supply_for_creator(&self, account_id: &String) -> (r: u64)
        requires
            self.inv(),
        ensures
            r == self.creator_ids(account_id@).len(),
    {
        index_count(&self.tokens_per_creator, account_id)
    }

    /// How many tokens of a type exist.
    pub fn nft_supply_for_type(&self, token_type: &String) -> (r: u64)
        requires
            self.inv(),
        ensures
            r == self.type_ids(token_type@).len(),
    {
        index_count(&self.tokens_per_type, token_type)
    }

    /// A forward page over one index entry, hydrating each identifier.
    fn page_entry(&self, ids: &Vec<String>, start: u64, lim: u64, ghost_key: Ghost<Seq<char>>,
        ghost_which: Ghost<int>) -> (r: Vec<TokenView>)
        requires
            self.inv(),
            ghost_which@ == 0 ==> strs(ids@) == ids_of(self.tokens_per_owner@, ghost_key@),
            ghost_which@ == 1 ==> strs(ids@) == ids_of(self.tokens_per_creator@, ghost_key@),
            ghost_which@ == 2 ==> strs(ids@) == ids_of(self.tokens_per_type@, ghost_key@),
            0 <= ghost_which@ <= 2,
        ensures
            r@.len() == page_len(ids@.len() as int, start as int, lim as int),
            forall|k: int|
                0 <= k < r@.len() ==> is_view_of(
                    #[trigger] r@[k],
                    strs(ids@)[start + k],
                    self.token_of(strs(ids@)[start + k])->Some_0,
                ),
    {
        let n = ids.len();
        if start >= n as u64 {
            let empty: Vec<TokenView> = Vec::new();
            return empty;
        }
        let s = start as usize;
        let avail = n - s;
        let cnt: usize = if lim <= avail as u64 {
            lim as usize
        } else {
            avail
        };
        let mut out: Vec<TokenView> = Vec::new();
        let mut k: usize = 0;
        while k < cnt
            invariant
                self.inv(),
                n == ids@.len(),
                ghost_which@ == 0 ==> strs(ids@) == ids_of(self.tokens_per_owner@, ghost_key@),
                ghost_which@ == 1 ==> strs(ids@) == ids_of(self.tokens_per_creator@, ghost_key@),
                ghost_which@ == 2 ==> strs(ids@) == ids_of(self.tokens_per_type@, ghost_key@),
                0 <= ghost_which@ <= 2,
                s + cnt <= n,
                s == start as int,
                0 <= k <= cnt,
                out@.len() == k,
                forall|q: int|
                    0 <= q < k ==> is_view_of(
                        #[trigger] out@[q],
                        strs(ids@)[s + q],
                        self.token_of(strs(ids@)[s + q])->Some_0,
                    ),
            decreases cnt - k,
        {
            let idx = s + k;
            proof {
                assert(strs(ids@)[idx as int] == ids@[idx as int]@);
                if ghost_which@ == 0 {
                    assert(ids_of(self.tokens_per_owner@, ghost_key@).contains(
                        strs(ids@)[idx as int],
                    ));
                } else if ghost_which@ == 1 {
                    assert(ids_of(self.tokens_per_creator@, ghost_key@).contains(
                        strs(ids@)[idx as int],
                    ));
                } else {
                    assert(ids_of(self.tokens_per_type@, ghost_key@).contains(
                        strs(ids@)[idx as int],
                    ));
                }
                assert(self.token_of(ids@[idx as int]@) is Some);
            }
            match assoc_get(&self.tokens_by_id, &ids[idx]) {
                Some(t) => {
                    let v = make_view(&ids[idx], t);
                    out.push(v);
                },
                None => {
                    proof {
                        assert(false);
                    }
                },
            }
            k = k + 1;
        }
        out
    }

    /// A forward page over one owner's tokens.
    pub fn nft_tokens_for_owner(
        &self,
        account_id: &String,
        from_index: Option<u64>,
        limit: Option<u64>,
    ) -> (r: Vec<TokenView>)
        requires
            self.inv(),
        ensures
            ({
                let ids = self.owner_ids(account_id@);
                let start = (match from_index {
                    Some(s) => s,
                    None => 0,
                }) as int;
                let lim = (match limit {
                    Some(l) => l,
                    None => 0,
                }) as int;
                &&& r@.len() == page_len(ids.len() as int, start, lim)
                &&& forall|k: int|
                    0 <= k < r@.len() ==> is_view_of(
                        #[trigger] r@[k],
                        ids[start + k],
                        self.token_of(ids[start + k])->Some_0,
                    )
            }),
    {
        let start: u64 = match from_index {
            Some(s) => s,
            None => 0,
        };
        let lim: u64 = match limit {
            Some(l) => l,
            None => 0,
        };
        match index_get(&self.tokens_per_owner, account_id) {
            Some(ids) => self.page_entry(ids, start, lim, Ghost(account_id@), Ghost(0)),
            None => Vec::new(),
        }
    }

    /// A forward page over one creator's tokens.
    pub fn nft_tokens_for_creator(&self, account_id: &String, from_index: u64, limit: u16) -> (r:
        Vec<TokenView>)
        requires
            self.inv(),
        ensures
            ({
                let ids = self.creator_ids(account_id@);
                &&& r@.len() == page_len(ids.len() as int, from_index as int, limit as int)
                &&& forall|k: int|
                    0 <= k < r@.len() ==> is_view_of(
                        #[trigger] r@[k],
                        ids[from_index + k],
                        self.token_of(ids[from_index + k])->Some_0,
                    )
            }),
    {
        match index_get(&self.tokens_per_creator, account_id) {
            Some(ids) => self.page_entry(ids, from_index, limit as u64, Ghost(account_id@), Ghost(1)),
            None => Vec::new(),
        }
    }

    /// A forward page over one type's tokens.
    pub fn nft_tokens_for_type(&self, token_type: &String, from_index: u64, limit: u64) -> (r: Vec<
        TokenView,
    >)
        requires
            self.inv(),
        ensures
            ({
                let ids = self.type_ids(token_type@);
                &&& r@.len() == page_len(ids.len() as int, from_index as int, limit as int)
                &&& forall|k: int|
                    0 <= k < r@.len() ==> is_view_of(
                        #[trigger] r@[k],
                        ids[from_index + k],
                        self.token_of(ids[from_index + k])->Some_0,
                    )
            }),
    {
        match index_get(&self.tokens_per_type, token_type) {
            Some(ids) => self.page_entry(ids, from_index, limit, Ghost(token_type@), Ghost(2)),
            None => Vec::new(),
        }
    }
}

} // verus!
