//! The registry state: the canonical token store, the three derived
//! indices, supply governance, royalty caps, and profiles.

use vstd::prelude::*;
use crate::assoc::{
    find, keys_distinct, assoc_get, assoc_position, assoc_set, lemma_find_push,
    lemma_find_update, lemma_find_take_step, lemma_find_some_iff,
    lemma_push_keeps_keys_distinct,
};
use crate::index::{
    ids_of, index_wf, index_insert, index_remove, index_count, others_same, seq_removed,
    lemma_push_contains, lemma_seq_removed_contains,
};
use crate::strset::{strs, labels_distinct, labels_contain, labels_insert, labels_remove};
use crate::token::{Token, Profile, token_wf, opt_label, royalty_sum, royalty_within, clone_pairs};
use crate::{RegistryError, MINTER_ROYALTY_CAP, CONTRACT_ROYALTY_CAP};

verus! {

/// Longest profile biography accepted, in characters.
pub const MAX_PROFILE_BIO_LENGTH: usize = 256;

/// Longest profile image reference accepted, in characters.
pub const MAX_PROFILE_IMAGE_LENGTH: usize = 256;

/// The index key a token contributes to, for one of the three indices.
pub open spec fn owner_sel() -> spec_fn(Token) -> Option<Seq<char>> {
    |t: Token| Some(t.owner_id@)
}

pub open spec fn creator_sel() -> spec_fn(Token) -> Option<Seq<char>> {
    |t: Token| Some(t.creator_id@)
}

pub open spec fn type_sel() -> spec_fn(Token) -> Option<Seq<char>> {
    |t: Token| opt_label(t.token_type)
}

/// An index agrees with the token store: an identifier stands under key `a`
/// exactly when the stored record selects `a`.
pub open spec fn coherent(
    idx: Seq<(String, Vec<String>)>,
    tokens: Seq<(String, Token)>,
    sel: spec_fn(Token) -> Option<Seq<char>>,
) -> bool {
    forall|a: Seq<char>, id: Seq<char>|
        #[trigger] ids_of(idx, a).contains(id) <==> (match find(tokens, id) {
            Some(t) => sel(t) == Some(a),
            None => false,
        })
}

/// Adding a fresh token and inserting its id under its selected key
/// preserves coherence.
pub proof fn lemma_coherent_insert(
    idx2: Seq<(String, Vec<String>)>,
    idx1: Seq<(String, Vec<String>)>,
    tok2: Seq<(String, Token)>,
    tok1: Seq<(String, Token)>,
    sel: spec_fn(Token) -> Option<Seq<char>>,
    key: Seq<char>,
    id: Seq<char>,
    t: Token,
)
    requires
        coherent(idx1, tok1, sel),
        find(tok1, id) is None,
        find(tok2, id) == Some(t),
        forall|x: Seq<char>| x != id ==> #[trigger] find(tok2, x) == find(tok1, x),
        sel(t) == Some(key),
        ids_of(idx2, key) == ids_of(idx1, key).push(id),
        others_same(idx2, idx1, key),
    ensures
        coherent(idx2, tok2, sel),
{
    assert forall|a: Seq<char>, x: Seq<char>|
        #[trigger] ids_of(idx2, a).contains(x) <==> (match find(tok2, x) {
            Some(tt) => sel(tt) == Some(a),
            None => false,
        }) by {
        if a == key {
            lemma_push_contains(ids_of(idx1, key), id, x);
        }
    }
}

/// Adding a fresh token that selects no key leaves an untouched index
/// coherent.
pub proof fn lemma_coherent_skip(
    idx: Seq<(String, Vec<String>)>,
    tok2: Seq<(String, Token)>,
    tok1: Seq<(String, Token)>,
    sel: spec_fn(Token) -> Option<Seq<char>>,
    id: Seq<char>,
    t: Token,
)
    requires
        coherent(idx, tok1, sel),
        find(tok1, id) is None,
        find(tok2, id) == Some(t),
        forall|x: Seq<char>| x != id ==> #[trigger] find(tok2, x) == find(tok1, x),
        sel(t) == None::<Seq<char>>,
    ensures
        coherent(idx, tok2, sel),
{
    assert forall|a: Seq<char>, x: Seq<char>|
        #[trigger] ids_of(idx, a).contains(x) <==> (match find(tok2, x) {
            Some(tt) => sel(tt) == Some(a),
            None => false,
        }) by {
        assert(ids_of(idx, a).contains(x) <==> (match find(tok1, x) {
            Some(tt) => sel(tt) == Some(a),
            None => false,
        }));
    }
}

/// Rewriting one record without changing its selected key leaves an
/// untouched index coherent.
pub proof fn lemma_coherent_update_same(
    idx: Seq<(String, Vec<String>)>,
    tok2: Seq<(String, Token)>,
    tok1: Seq<(String, Token)>,
    sel: spec_fn(Token) -> Option<Seq<char>>,
    id: Seq<char>,
    t1: Token,
    t2: Token,
)
    requires
        coherent(idx, tok1, sel),
        find(tok1, id) == Some(t1),
        find(tok2, id) == Some(t2),
        forall|x: Seq<char>| x != id ==> #[trigger] find(tok2, x) == find(tok1, x),
        sel(t2) == sel(t1),
    ensures
        coherent(idx, tok2, sel),
{
    assert forall|a: Seq<char>, x: Seq<char>|
        #[trigger] ids_of(idx, a).contains(x) <==> (match find(tok2, x) {
            Some(tt) => sel(tt) == Some(a),
            None => false,
        }) by {
        assert(ids_of(idx, a).contains(x) <==> (match find(tok1, x) {
            Some(tt) => sel(tt) == Some(a),
            None => false,
        }));
    }
}

/// Moving one identifier between two entries while the record's selected
/// key changes accordingly preserves coherence.
pub proof fn lemma_coherent_move(
    idx2: Seq<(String, Vec<String>)>,
    idx1: Seq<(String, Vec<String>)>,
    tok2: Seq<(String, Token)>,
    tok1: Seq<(String, Token)>,
    sel: spec_fn(Token) -> Option<Seq<char>>,
    okey: Seq<char>,
    nkey: Seq<char>,
    id: Seq<char>,
    t1: Token,
    t2: Token,
)
    requires
        coherent(idx1, tok1, sel),
        okey != nkey,
        find(tok1, id) == Some(t1),
        sel(t1) == Some(okey),
        find(tok2, id) == Some(t2),
        sel(t2) == Some(nkey),
        forall|x: Seq<char>| x != id ==> #[trigger] find(tok2, x) == find(tok1, x),
        forall|y: Seq<char>|
            #[trigger] ids_of(idx2, okey).contains(y) <==> (ids_of(idx1, okey).contains(y) && y
                != id),
        ids_of(idx2, nkey) == ids_of(idx1, nkey).push(id),
        forall|k: Seq<char>|
            k != okey && k != nkey ==> #[trigger] ids_of(idx2, k) == ids_of(idx1, k),
    ensures
        coherent(idx2, tok2, sel),
{
    assert forall|a: Seq<char>, x: Seq<char>|
        #[trigger] ids_of(idx2, a).contains(x) <==> (match find(tok2, x) {
            Some(tt) => sel(tt) == Some(a),
            None => false,
        }) by {
        if a == nkey {
            lemma_push_contains(ids_of(idx1, nkey), id, x);
        }
    }
}

/// The whole registry.
pub struct Contract {
    pub tokens_per_owner: Vec<(String, Vec<String>)>,
    pub tokens_per_creator: Vec<(String, Vec<String>)>,
    pub tokens_per_type: Vec<(String, Vec<String>)>,
    pub tokens_by_id: Vec<(String, Token)>,
    pub owner_id: String,
    /// Marginal storage, in bytes, of one per-owner index entry, measured
    /// once at initialization and cached for the registry's lifetime.
    pub extra_storage_in_bytes_per_token: u64,
    pub supply_cap_by_type: Vec<(String, u64)>,
    pub token_types_locked: Vec<String>,
    pub contract_royalty: u32,
    pub profiles: Vec<(String, Profile)>,
    pub use_storage_fees: bool,
    pub free_mints: u64,
    pub version: u16,
}

impl Contract {
    /// The record stored under a token identifier.
    pub open spec fn token_of(self, id: Seq<char>) -> Option<Token> {
        find(self.tokens_by_id@, id)
    }

    /// All token identifiers, in insertion order.
    pub open spec fn all_ids(self) -> Seq<Seq<char>> {
        self.tokens_by_id@.map_values(|p: (String, Token)| p.0@)
    }

    pub open spec fn owner_ids(self, a: Seq<char>) -> Seq<Seq<char>> {
        ids_of(self.tokens_per_owner@, a)
    }

    pub open spec fn creator_ids(self, a: Seq<char>) -> Seq<Seq<char>> {
        ids_of(self.tokens_per_creator@, a)
    }

    pub open spec fn type_ids(self, ty: Seq<char>) -> Seq<Seq<char>> {
        ids_of(self.tokens_per_type@, ty)
    }

    /// The declared supply cap; an undeclared type has cap 0 and is
    /// uncreatable.
    pub open spec fn cap_of(self, ty: Seq<char>) -> int {
        match find(self.supply_cap_by_type@, ty) {
            Some(c) => c as int,
            None => 0,
        }
    }

    pub open spec fn locked(self, ty: Seq<char>) -> bool {
        strs(self.token_types_locked@).contains(ty)
    }

    /// The creation gate: unlocked and strictly under the declared cap.
    pub open spec fn spec_can_create(self, ty: Seq<char>) -> bool {
        !self.locked(ty) && self.type_ids(ty).len() < self.cap_of(ty)
    }

    /// Which error a creation attempt is rejected with, if any; the checks
    /// run in this order, all before the first write.
    pub open spec fn register_gate(
        self,
        id: Seq<char>,
        ty: Option<Seq<char>>,
        rsum: int,
    ) -> Option<RegistryError> {
        if self.token_of(id) is Some {
            Some(RegistryError::DuplicateToken)
        } else if rsum > MINTER_ROYALTY_CAP as int {
            Some(RegistryError::RoyaltyCapExceeded)
        } else {
            match ty {
                None => None,
                Some(t) => if self.locked(t) {
                    Some(RegistryError::LockedType)
                } else if self.type_ids(t).len() >= self.cap_of(t) {
                    Some(RegistryError::CapacityExceeded)
                } else {
                    None
                },
            }
        }
    }

    /// Administrative and cached state untouched by token mutations.
    pub open spec fn admin_same(self, other: Contract) -> bool {
        &&& self.owner_id == other.owner_id
        &&& self.extra_storage_in_bytes_per_token == other.extra_storage_in_bytes_per_token
        &&& self.supply_cap_by_type@ == other.supply_cap_by_type@
        &&& self.token_types_locked@ == other.token_types_locked@
        &&& self.contract_royalty == other.contract_royalty
        &&& self.profiles@ == other.profiles@
        &&& self.use_storage_fees == other.use_storage_fees
        &&& self.free_mints == other.free_mints
        &&& self.version == other.version
    }

    /// The registry invariant: well-formed structures, the three indices
    /// coherent with the canonical store, and every type within its cap.
    pub open spec fn inv(self) -> bool {
        &&& index_wf(self.tokens_per_owner@)
        &&& index_wf(self.tokens_per_creator@)
        &&& index_wf(self.tokens_per_type@)
        &&& keys_distinct(self.tokens_by_id@)
        &&& keys_distinct(self.supply_cap_by_type@)
        &&& labels_distinct(self.token_types_locked@)
        &&& keys_distinct(self.profiles@)
        &&& forall|id: Seq<char>|
            (#[trigger] self.token_of(id)) matches Some(t) ==> token_wf(t)
        &&& coherent(self.tokens_per_owner@, self.tokens_by_id@, owner_sel())
        &&& coherent(self.tokens_per_creator@, self.tokens_by_id@, creator_sel())
        &&& coherent(self.tokens_per_type@, self.tokens_by_id@, type_sel())
        &&& forall|ty: Seq<char>| (#[trigger] self.type_ids(ty)).len() <= self.cap_of(ty)
    }

    /// A token identifier appears under exactly one owner, exactly one
    /// creator, and at most one type: its own record's keys.
    pub proof fn lemma_index_consistency(self, id: Seq<char>, a: Seq<char>)
        requires
            self.inv(),
        ensures
            self.owner_ids(a).contains(id) <==> (self.token_of(id) matches Some(t)
                && t.owner_id@ == a),
            self.creator_ids(a).contains(id) <==> (self.token_of(id) matches Some(t)
                && t.creator_id@ == a),
            self.type_ids(a).contains(id) <==> (self.token_of(id) matches Some(t)
                && opt_label(t.token_type) == Some(a)),
    {
    }

    /// The creation gate as executable code.
    pub fn can_create(&self, token_type: &String) -> (r: bool)
        requires
            self.inv(),
        ensures
            r == self.spec_can_create(token_type@),
    {
        if labels_contain(&self.token_types_locked, token_type) {
            return false;
        }
        let count = index_count(&self.tokens_per_type, token_type);
        let cap: u64 = match assoc_get(&self.supply_cap_by_type, token_type) {
            Some(c) => *c,
            None => 0,
        };
        count < cap
    }

    /// Which error a creation attempt would be rejected with right now.
    fn register_check(
        &self,
        token_id: &String,
        token_type: &Option<String>,
        royalty: &Vec<(String, u32)>,
    ) -> (g: Option<RegistryError>)
        requires
            self.inv(),
        ensures
            g == self.register_gate(token_id@, opt_label(*token_type), royalty_sum(royalty@)),
    {
        if assoc_get(&self.tokens_by_id, token_id).is_some() {
            return Some(RegistryError::DuplicateToken);
        }
        if !royalty_within(royalty, MINTER_ROYALTY_CAP) {
            return Some(RegistryError::RoyaltyCapExceeded);
        }
        match token_type {
            None => None,
            Some(t) => {
                if labels_contain(&self.token_types_locked, t) {
                    return Some(RegistryError::LockedType);
                }
                let count = index_count(&self.tokens_per_type, t);
                let cap: u64 = match assoc_get(&self.supply_cap_by_type, t) {
                    Some(c) => *c,
                    None => 0,
                };
                if count >= cap {
                    return Some(RegistryError::CapacityExceeded);
                }
                None
            },
        }
    }

    /// Registers a new token: validates everything first, then writes the
    /// canonical record and all three index entries as one unit.
    pub fn register_token(
        &mut self,
        token_id: String,
        owner_id: String,
        creator_id: String,
        token_type: Option<String>,
        royalty: Vec<(String, u32)>,
    ) -> (r: Result<(), RegistryError>)
        requires
            old(self).inv(),
            keys_distinct(royalty@),
        ensures
            final(self).inv(),
            match old(self).register_gate(token_id@, opt_label(token_type), royalty_sum(royalty@)) {
                Some(e) => r == Err::<(), RegistryError>(e) && *final(self) == *old(self),
                None => {
                    &&& r == Ok::<(), RegistryError>(())
                    &&& final(self).token_of(token_id@) == Some(
                        Token { owner_id, creator_id, token_type, royalty },
                    )
                    &&& forall|x: Seq<char>|
                        x != token_id@ ==> #[trigger] final(self).token_of(x) == old(
                            self,
                        ).token_of(x)
                    &&& final(self).all_ids() == old(self).all_ids().push(token_id@)
                    &&& final(self).owner_ids(owner_id@) == old(self).owner_ids(
                        owner_id@,
                    ).push(token_id@)
                    &&& forall|a: Seq<char>|
                        a != owner_id@ ==> #[trigger] final(self).owner_ids(a) == old(
                            self,
                        ).owner_ids(a)
                    &&& final(self).creator_ids(creator_id@) == old(self).creator_ids(
                        creator_id@,
                    ).push(token_id@)
                    &&& forall|a: Seq<char>|
                        a != creator_id@ ==> #[trigger] final(self).creator_ids(a) == old(
                            self,
                        ).creator_ids(a)
                    &&& match token_type {
                        Some(t) => final(self).type_ids(t@) == old(self).type_ids(t@).push(
                            token_id@,
                        ) && forall|y: Seq<char>|
                            y != t@ ==> #[trigger] final(self).type_ids(y) == old(
                                self,
                            ).type_ids(y),
                        None => forall|y: Seq<char>|
                            #[trigger] final(self).type_ids(y) == old(self).type_ids(y),
                    }
                    &&& final(self).admin_same(*old(self))
                },
            },
    {
        match self.register_check(&token_id, &token_type, &royalty) {
            Some(e) => {
                return Err(e);
            },
            None => {},
        }
        let ghost pre = *self;
        proof {
            assert(!ids_of(pre.tokens_per_owner@, owner_id@).contains(token_id@));
            assert(!ids_of(pre.tokens_per_creator@, creator_id@).contains(token_id@));
        }
        index_insert(&mut self.tokens_per_owner, &owner_id, token_id.clone());
        index_insert(&mut self.tokens_per_creator, &creator_id, token_id.clone());
        match &token_type {
            Some(t) => {
                proof {
                    assert(!ids_of(pre.tokens_per_type@, t@).contains(token_id@));
                }
                index_insert(&mut self.tokens_per_type, t, token_id.clone());
            },
            None => {},
        }
        let tok = Token { owner_id, creator_id, token_type, royalty };
        let ghost pair = (token_id, tok);
        self.tokens_by_id.push((token_id, tok));
        proof {
            let post = *self;
            lemma_push_keeps_keys_distinct(pre.tokens_by_id@, pair);
            assert(post.tokens_by_id@ == pre.tokens_by_id@.push(pair));
            assert forall|x: Seq<char>|
                #[trigger] post.token_of(x) == if x == pair.0@ {
                    Some(pair.1)
                } else {
                    pre.token_of(x)
                } by {
                lemma_find_push(pre.tokens_by_id@, pair, x);
            }
            assert forall|x: Seq<char>|
                x != pair.0@ implies #[trigger] find(post.tokens_by_id@, x) == find(
                pre.tokens_by_id@,
                x,
            ) by {
                lemma_find_push(pre.tokens_by_id@, pair, x);
            }
            assert(find(post.tokens_by_id@, pair.0@) == Some(pair.1)) by {
                lemma_find_push(pre.tokens_by_id@, pair, pair.0@);
            }
            assert(find(pre.tokens_by_id@, pair.0@) is None);
            assert(post.all_ids() =~= pre.all_ids().push(pair.0@));
            lemma_coherent_insert(
                post.tokens_per_owner@,
                pre.tokens_per_owner@,
                post.tokens_by_id@,
                pre.tokens_by_id@,
                owner_sel(),
                pair.1.owner_id@,
                pair.0@,
                pair.1,
            );
            lemma_coherent_insert(
                post.tokens_per_creator@,
                pre.tokens_per_creator@,
                post.tokens_by_id@,
                pre.tokens_by_id@,
                creator_sel(),
                pair.1.creator_id@,
                pair.0@,
                pair.1,
            );
            match pair.1.token_type {
                Some(t) => {
                    lemma_coherent_insert(
                        post.tokens_per_type@,
                        pre.tokens_per_type@,
                        post.tokens_by_id@,
                        pre.tokens_by_id@,
                        type_sel(),
                        t@,
                        pair.0@,
                        pair.1,
                    );
                },
                None => {
                    lemma_coherent_skip(
                        post.tokens_per_type@,
                        post.tokens_by_id@,
                        pre.tokens_by_id@,
                        type_sel(),
                        pair.0@,
                        pair.1,
                    );
                },
            }
            assert forall|ty: Seq<char>| (#[trigger] post.type_ids(ty)).len() <= post.cap_of(
                ty,
            ) by {
                match pair.1.token_type {
                    Some(t) => {
                        if ty == t@ {
                            assert(post.type_ids(ty) == pre.type_ids(ty).push(pair.0@));
                        } else {
                            assert(post.type_ids(ty) == pre.type_ids(ty));
                        }
                    },
                    None => {
                        assert(post.type_ids(ty) == pre.type_ids(ty));
                    },
                }
                assert(post.cap_of(ty) == pre.cap_of(ty));
            }
            assert forall|id: Seq<char>| (#[trigger] post.token_of(id)) is Some
                implies token_wf(post.token_of(id)->Some_0) by {
                if id != pair.0@ {
                    assert(post.token_of(id) == pre.token_of(id));
                }
            }
        }
        Ok(())
    }

    /// Moves a token to a new owner. The creator and type entries are
    /// untouched; the old owner's emptied entry remains allocated. The
    /// transfer workflow rejects a transfer to the current owner before it
    /// reaches the registry, so the two accounts are required to differ.
    pub fn reassign_owner(
        &mut self,
        token_id: &String,
        old_owner: &String,
        new_owner: &String,
    ) -> (r: Result<(), RegistryError>)
        requires
            old(self).inv(),
            old_owner@ != new_owner@,
        ensures
            final(self).inv(),
            match old(self).token_of(token_id@) {
                Some(t) => if t.owner_id@ == old_owner@ {
                    &&& r == Ok::<(), RegistryError>(())
                    &&& final(self).token_of(token_id@) == Some(
                        Token {
                            owner_id: *new_owner,
                            creator_id: t.creator_id,
                            token_type: t.token_type,
                            royalty: t.royalty,
                        },
                    )
                    &&& forall|x: Seq<char>|
                        x != token_id@ ==> #[trigger] final(self).token_of(x) == old(
                            self,
                        ).token_of(x)
                    &&& final(self).all_ids() == old(self).all_ids()
                    &&& seq_removed(
                        final(self).owner_ids(old_owner@),
                        old(self).owner_ids(old_owner@),
                        token_id@,
                    )
                    &&& final(self).owner_ids(new_owner@) == old(self).owner_ids(
                        new_owner@,
                    ).push(token_id@)
                    &&& forall|a: Seq<char>|
                        a != old_owner@ && a != new_owner@ ==> #[trigger] final(self).owner_ids(a)
                            == old(self).owner_ids(a)
                    &&& forall|a: Seq<char>|
                        #[trigger] final(self).creator_ids(a) == old(self).creator_ids(a)
                    &&& forall|y: Seq<char>|
                        #[trigger] final(self).type_ids(y) == old(self).type_ids(y)
                    &&& final(self).admin_same(*old(self))
                } else {
                    r == Err::<(), RegistryError>(RegistryError::NotFound) && *final(self)
                        == *old(self)
                },
                None => r == Err::<(), RegistryError>(RegistryError::NotFound) && *final(self)
                    == *old(self),
            },
    {
        let pos = assoc_position(&self.tokens_by_id, token_id);
        let i = match pos {
            Some(i) => i,
            None => {
                return Err(RegistryError::NotFound);
            },
        };
        if !(self.tokens_by_id[i].1.owner_id == *old_owner) {
            return Err(RegistryError::NotFound);
        }
        let ghost pre = *self;
        let ghost t1 = pre.token_of(token_id@)->Some_0;
        proof {
            assert(ids_of(pre.tokens_per_owner@, old_owner@).contains(token_id@));
        }
        index_remove(&mut self.tokens_per_owner, old_owner, token_id);
        let ghost mid = self.tokens_per_owner@;
        proof {
            lemma_seq_removed_contains(
                ids_of(mid, old_owner@),
                ids_of(pre.tokens_per_owner@, old_owner@),
                token_id@,
            );
            assert(ids_of(mid, new_owner@) == ids_of(pre.tokens_per_owner@, new_owner@));
            assert(!ids_of(mid, new_owner@).contains(token_id@));
        }
        index_insert(&mut self.tokens_per_owner, new_owner, token_id.clone());
        let mut entry = self.tokens_by_id.remove(i);
        let Token { owner_id: _discarded, creator_id, token_type, royalty } = entry.1;
        let t2 = Token { owner_id: new_owner.clone(), creator_id, token_type, royalty };
        let ghost pair = (entry.0, t2);
        self.tokens_by_id.insert(i, (entry.0, t2));
        proof {
            let post = *self;
            assert(post.tokens_by_id@ =~= pre.tokens_by_id@.update(i as int, pair));
            crate::assoc::lemma_update_keeps_keys_distinct(pre.tokens_by_id@, i as int, pair);
            assert forall|x: Seq<char>|
                #[trigger] post.token_of(x) == if x == token_id@ {
                    Some(pair.1)
                } else {
                    pre.token_of(x)
                } by {
                lemma_find_update(pre.tokens_by_id@, i as int, pair, x);
            }
            assert forall|x: Seq<char>|
                x != token_id@ implies #[trigger] find(post.tokens_by_id@, x) == find(
                pre.tokens_by_id@,
                x,
            ) by {
                lemma_find_update(pre.tokens_by_id@, i as int, pair, x);
            }
            assert(find(post.tokens_by_id@, token_id@) == Some(pair.1)) by {
                lemma_find_update(pre.tokens_by_id@, i as int, pair, token_id@);
            }
            assert(find(pre.tokens_by_id@, token_id@) == Some(t1));
            assert(post.all_ids() =~= pre.all_ids());
            assert forall|y: Seq<char>|
                #[trigger] ids_of(post.tokens_per_owner@, old_owner@).contains(y) <==> (ids_of(
                pre.tokens_per_owner@,
                old_owner@,
            ).contains(y) && y != token_id@) by {
                assert(ids_of(post.tokens_per_owner@, old_owner@) == ids_of(mid, old_owner@));
            }
            lemma_coherent_move(
                post.tokens_per_owner@,
                pre.tokens_per_owner@,
                post.tokens_by_id@,
                pre.tokens_by_id@,
                owner_sel(),
                old_owner@,
                new_owner@,
                token_id@,
                t1,
                pair.1,
            );
            lemma_coherent_update_same(
                post.tokens_per_creator@,
                post.tokens_by_id@,
                pre.tokens_by_id@,
                creator_sel(),
                token_id@,
                t1,
                pair.1,
            );
            lemma_coherent_update_same(
                post.tokens_per_type@,
                post.tokens_by_id@,
                pre.tokens_by_id@,
                type_sel(),
                token_id@,
                t1,
                pair.1,
            );
            assert forall|ty: Seq<char>| (#[trigger] post.type_ids(ty)).len() <= post.cap_of(
                ty,
            ) by {
                assert(post.type_ids(ty) == pre.type_ids(ty));
                assert(post.cap_of(ty) == pre.cap_of(ty));
            }
            assert forall|id: Seq<char>| (#[trigger] post.token_of(id)) is Some
                implies token_wf(post.token_of(id)->Some_0) by {
                if id != token_id@ {
                    assert(post.token_of(id) == pre.token_of(id));
                }
            }
            assert(seq_removed(
                post.owner_ids(old_owner@),
                pre.owner_ids(old_owner@),
                token_id@,
            ));
        }
        Ok(())
    }
}


/// The cap resulting from declaring `c` over an existing entry: never lower
/// than what was already declared.
pub open spec fn merged_cap(prior: Option<u64>, c: u64) -> u64 {
    match prior {
        None => c,
        Some(x) => if x >= c {
            x
        } else {
            c
        },
    }
}

/// A state change that leaves the token store and all three indices as they
/// were, never lowers a cap, and keeps the auxiliary tables well formed,
/// preserves the invariant.
pub proof fn lemma_inv_admin(a: Contract, b: Contract)
    requires
        b.inv(),
        a.tokens_per_owner@ == b.tokens_per_owner@,
        a.tokens_per_creator@ == b.tokens_per_creator@,
        a.tokens_per_type@ == b.tokens_per_type@,
        a.tokens_by_id@ == b.tokens_by_id@,
        keys_distinct(a.supply_cap_by_type@),
        labels_distinct(a.token_types_locked@),
        keys_distinct(a.profiles@),
        forall|ty: Seq<char>| #[trigger] a.cap_of(ty) >= b.cap_of(ty),
    ensures
        a.inv(),
{
    assert forall|id: Seq<char>| #[trigger] a.token_of(id) == b.token_of(id) by {}
    assert(coherent(a.tokens_per_owner@, a.tokens_by_id@, owner_sel()));
    assert(coherent(a.tokens_per_creator@, a.tokens_by_id@, creator_sel()));
    assert(coherent(a.tokens_per_type@, a.tokens_by_id@, type_sel()));
    assert forall|ty: Seq<char>| (#[trigger] a.type_ids(ty)).len() <= a.cap_of(ty) by {
        assert(a.type_ids(ty) == b.type_ids(ty));
        assert(b.type_ids(ty).len() <= b.cap_of(ty));
    }
    assert forall|id: Seq<char>| (#[trigger] a.token_of(id)) is Some implies token_wf(
        a.token_of(id)->Some_0,
    ) by {
        assert(a.token_of(id) == b.token_of(id));
    }
}

impl Contract {
    /// Builds an empty registry. The caller has already written and removed
    /// one synthetic probe entry against the host's storage meter and hands
    /// in the two readings; the measured per-entry cost is cached here for
    /// the registry's lifetime. When `unlocked` is absent, every declared
    /// type starts locked.
    pub fn new(
        owner_id: String,
        supply_cap_by_type: Vec<(String, u64)>,
        use_storage_fees: bool,
        free_mints: u64,
        unlocked: Option<bool>,
        usage_before: u64,
        usage_after: u64,
    ) -> (r: Contract)
        requires
            keys_distinct(supply_cap_by_type@),
        ensures
            r.inv(),
            forall|id: Seq<char>| #[trigger] r.token_of(id) is None,
            r.all_ids() == Seq::<Seq<char>>::empty(),
            forall|a: Seq<char>| #[trigger] r.owner_ids(a) == Seq::<Seq<char>>::empty(),
            forall|a: Seq<char>| #[trigger] r.creator_ids(a) == Seq::<Seq<char>>::empty(),
            forall|ty: Seq<char>| #[trigger] r.type_ids(ty) == Seq::<Seq<char>>::empty(),
            r.owner_id == owner_id,
            r.supply_cap_by_type@ == supply_cap_by_type@,
            forall|ty: Seq<char>|
                #[trigger] r.locked(ty) <==> (unlocked is None && find(supply_cap_by_type@, ty)
                    is Some),
            r.contract_royalty == 0,
            r.use_storage_fees == use_storage_fees,
            r.free_mints == free_mints,
            r.version == 0,
            r.extra_storage_in_bytes_per_token as int == crate::probe::probe_cost(
                usage_before as int,
                usage_after as int,
                owner_id@.len() as int,
            ),
    {
        let olen = owner_id.as_str().unicode_len();
        let cost = crate::probe::compute_entry_cost(usage_before, usage_after, olen as u64);
        let mut locked: Vec<String> = Vec::new();
        if unlocked.is_none() {
            let n = supply_cap_by_type.len();
            let mut i: usize = 0;
            while i < n
                invariant
                    n == supply_cap_by_type@.len(),
                    0 <= i <= n,
                    labels_distinct(locked@),
                    forall|ty: Seq<char>|
                        #[trigger] strs(locked@).contains(ty) <==> find(
                            supply_cap_by_type@.take(i as int),
                            ty,
                        ) is Some,
                decreases n - i,
            {
                let ghost prelock = locked@;
                labels_insert(&mut locked, supply_cap_by_type[i].0.clone());
                proof {
                    assert forall|ty: Seq<char>|
                        #[trigger] strs(locked@).contains(ty) <==> find(
                            supply_cap_by_type@.take(i as int + 1),
                            ty,
                        ) is Some by {
                        lemma_find_take_step(supply_cap_by_type@, i as int, ty);
                    }
                }
                i = i + 1;
            }
            proof {
                crate::assoc::lemma_take_all(supply_cap_by_type@);
            }
        }
        let r = Contract {
            tokens_per_owner: Vec::new(),
            tokens_per_creator: Vec::new(),
            tokens_per_type: Vec::new(),
            tokens_by_id: Vec::new(),
            owner_id,
            extra_storage_in_bytes_per_token: cost,
            supply_cap_by_type,
            token_types_locked: locked,
            contract_royalty: 0,
            profiles: Vec::new(),
            use_storage_fees,
            free_mints,
            version: 0,
        };
        proof {
            assert(r.tokens_by_id@ =~= Seq::<(String, Token)>::empty());
            assert(r.all_ids() =~= Seq::<Seq<char>>::empty());
            assert forall|a: Seq<char>, id: Seq<char>|
                !(#[trigger] ids_of(r.tokens_per_owner@, a).contains(id)) by {
                assert(ids_of(r.tokens_per_owner@, a) == Seq::<Seq<char>>::empty());
            }
            assert forall|a: Seq<char>, id: Seq<char>|
                !(#[trigger] ids_of(r.tokens_per_creator@, a).contains(id)) by {
                assert(ids_of(r.tokens_per_creator@, a) == Seq::<Seq<char>>::empty());
            }
            assert forall|a: Seq<char>, id: Seq<char>|
                !(#[trigger] ids_of(r.tokens_per_type@, a).contains(id)) by {
                assert(ids_of(r.tokens_per_type@, a) == Seq::<Seq<char>>::empty());
            }
            assert forall|ty: Seq<char>| (#[trigger] r.type_ids(ty)).len() <= r.cap_of(ty) by {
                assert(r.type_ids(ty) == Seq::<Seq<char>>::empty());
                assert(r.cap_of(ty) >= 0);
            }
        }
        r
    }

    /// Builds an empty registry and measures the per-entry storage cost
    /// against the host itself: reads the host's storage meter, writes one
    /// synthetic per-owner entry under the maximum-length identifier, reads
    /// the meter again, removes the entry, and caches the back-calculated
    /// cost. The probe runs only here, once, at initialization.
    pub fn new_measured(
        owner_id: String,
        supply_cap_by_type: Vec<(String, u64)>,
        use_storage_fees: bool,
        free_mints: u64,
        unlocked: Option<bool>,
    ) -> (r: Contract)
        requires
            keys_distinct(supply_cap_by_type@),
        ensures
            r.inv(),
            forall|id: Seq<char>| #[trigger] r.token_of(id) is None,
            r.all_ids() == Seq::<Seq<char>>::empty(),
            r.owner_id == owner_id,
            r.supply_cap_by_type@ == supply_cap_by_type@,
            forall|ty: Seq<char>|
                #[trigger] r.locked(ty) <==> (unlocked is None && find(supply_cap_by_type@, ty)
                    is Some),
            r.contract_royalty == 0,
            r.use_storage_fees == use_storage_fees,
            r.free_mints == free_mints,
            r.version == 0,
            exists|b: u64, a: u64|
                r.extra_storage_in_bytes_per_token as int == #[trigger] crate::probe::probe_cost(
                    b as int,
                    a as int,
                    owner_id@.len() as int,
                ),
    {
        let usage_before = crate::probe::host_storage_usage();
        let key = crate::probe::probe_entry_key();
        let value: Vec<u8> = Vec::new();
        crate::probe::host_storage_write(&key, &value);
        let usage_after = crate::probe::host_storage_usage();
        crate::probe::host_storage_remove(&key);
        let r = Contract::new(
            owner_id,
            supply_cap_by_type,
            use_storage_fees,
            free_mints,
            unlocked,
            usage_before,
            usage_after,
        );
        proof {
            assert(r.extra_storage_in_bytes_per_token as int == crate::probe::probe_cost(
                usage_before as int,
                usage_after as int,
                r.owner_id@.len() as int,
            ));
        }
        r
    }

    /// Declares new types or raises existing caps; a cap is never lowered
    /// through this path. When `unlocked` is absent, each named type is
    /// locked as well.
    pub fn add_token_types(&mut self, caps: &Vec<(String, u64)>, unlocked: Option<bool>)
        requires
            old(self).inv(),
            keys_distinct(caps@),
        ensures
            final(self).inv(),
            forall|ty: Seq<char>|
                #[trigger] final(self).cap_of(ty) == (match find(caps@, ty) {
                    Some(c) => if old(self).cap_of(ty) >= c as int {
                        old(self).cap_of(ty)
                    } else {
                        c as int
                    },
                    None => old(self).cap_of(ty),
                }),
            forall|ty: Seq<char>|
                #[trigger] final(self).locked(ty) <==> (old(self).locked(ty) || (unlocked
                    is None && find(caps@, ty) is Some)),
            final(self).tokens_by_id@ == old(self).tokens_by_id@,
            final(self).tokens_per_owner@ == old(self).tokens_per_owner@,
            final(self).tokens_per_creator@ == old(self).tokens_per_creator@,
            final(self).tokens_per_type@ == old(self).tokens_per_type@,
            final(self).profiles@ == old(self).profiles@,
            final(self).owner_id == old(self).owner_id,
            final(self).extra_storage_in_bytes_per_token == old(
                self,
            ).extra_storage_in_bytes_per_token,
            final(self).contract_royalty == old(self).contract_royalty,
            final(self).use_storage_fees == old(self).use_storage_fees,
            final(self).free_mints == old(self).free_mints,
            final(self).version == old(self).version,
    {
        let ghost pre = *self;
        let n = caps.len();
        let mut i: usize = 0;
        while i < n
            invariant
                n == caps@.len(),
                0 <= i <= n,
                pre == *old(self),
                pre.inv(),
                keys_distinct(caps@),
                keys_distinct(self.supply_cap_by_type@),
                labels_distinct(self.token_types_locked@),
                forall|ty: Seq<char>|
                    #[trigger] find(self.supply_cap_by_type@, ty) == (match find(
                        caps@.take(i as int),
                        ty,
                    ) {
                        Some(c) => Some(merged_cap(find(pre.supply_cap_by_type@, ty), c)),
                        None => find(pre.supply_cap_by_type@, ty),
                    }),
                forall|ty: Seq<char>|
                    #[trigger] strs(self.token_types_locked@).contains(ty) <==> (strs(
                        pre.token_types_locked@,
                    ).contains(ty) || (unlocked is None && find(caps@.take(i as int), ty)
                        is Some)),
                self.tokens_by_id@ == pre.tokens_by_id@,
                self.tokens_per_owner@ == pre.tokens_per_owner@,
                self.tokens_per_creator@ == pre.tokens_per_creator@,
                self.tokens_per_type@ == pre.tokens_per_type@,
                self.profiles@ == pre.profiles@,
                self.owner_id == pre.owner_id,
                self.extra_storage_in_bytes_per_token == pre.extra_storage_in_bytes_per_token,
                self.contract_royalty == pre.contract_royalty,
                self.use_storage_fees == pre.use_storage_fees,
                self.free_mints == pre.free_mints,
                self.version == pre.version,
            decreases n - i,
        {
            proof {
                assert forall|j: int|
                    0 <= j < caps@.take(i as int).len() implies caps@.take(i as int)[j].0@
                    != caps@[i as int].0@ by {
                    assert(caps@.take(i as int)[j] == caps@[j]);
                }
                lemma_find_some_iff(caps@.take(i as int), caps@[i as int].0@);
                assert(find(caps@.take(i as int), caps@[i as int].0@) is None);
            }
            if unlocked.is_none() {
                labels_insert(&mut self.token_types_locked, caps[i].0.clone());
            }
            let cur: Option<u64> = match assoc_get(&self.supply_cap_by_type, &caps[i].0) {
                Some(c) => Some(*c),
                None => None,
            };
            let c = caps[i].1;
            let nc: u64 = match cur {
                Some(x) => if x >= c {
                    x
                } else {
                    c
                },
                None => c,
            };
            assoc_set(&mut self.supply_cap_by_type, &caps[i].0, nc);
            proof {
                assert forall|ty: Seq<char>|
                    #[trigger] find(self.supply_cap_by_type@, ty) == (match find(
                        caps@.take(i as int + 1),
                        ty,
                    ) {
                        Some(cc) => Some(merged_cap(find(pre.supply_cap_by_type@, ty), cc)),
                        None => find(pre.supply_cap_by_type@, ty),
                    }) by {
                    lemma_find_take_step(caps@, i as int, ty);
                }
                assert forall|ty: Seq<char>|
                    #[trigger] strs(self.token_types_locked@).contains(ty) <==> (strs(
                        pre.token_types_locked@,
                    ).contains(ty) || (unlocked is None && find(caps@.take(i as int + 1), ty)
                        is Some)) by {
                    lemma_find_take_step(caps@, i as int, ty);
                }
            }
            i = i + 1;
        }
        proof {
            crate::assoc::lemma_take_all(caps@);
            assert forall|ty: Seq<char>|
                #[trigger] self.cap_of(ty) == (match find(caps@, ty) {
                    Some(c) => if pre.cap_of(ty) >= c as int {
                        pre.cap_of(ty)
                    } else {
                        c as int
                    },
                    None => pre.cap_of(ty),
                }) by {
                assert(find(self.supply_cap_by_type@, ty) == (match find(caps@, ty) {
                    Some(c) => Some(merged_cap(find(pre.supply_cap_by_type@, ty), c)),
                    None => find(pre.supply_cap_by_type@, ty),
                }));
            }
            assert forall|ty: Seq<char>|
                #[trigger] self.locked(ty) <==> (pre.locked(ty) || (unlocked is None && find(
                    caps@,
                    ty,
                ) is Some)) by {
                assert(strs(self.token_types_locked@).contains(ty) <==> (strs(
                    pre.token_types_locked@,
                ).contains(ty) || (unlocked is None && find(caps@, ty) is Some)));
            }
            assert forall|ty: Seq<char>| #[trigger] self.cap_of(ty) >= pre.cap_of(ty) by {
                assert(find(self.supply_cap_by_type@, ty) == (match find(caps@, ty) {
                    Some(c) => Some(merged_cap(find(pre.supply_cap_by_type@, ty), c)),
                    None => find(pre.supply_cap_by_type@, ty),
                }));
            }
            lemma_inv_admin(*self, pre);
        }
    }

    /// Locks the creation gate of each named type.
    pub fn lock_token_types(&mut self, token_types: &Vec<String>)
        requires
            old(self).inv(),
        ensures
            final(self).inv(),
            forall|ty: Seq<char>|
                #[trigger] final(self).locked(ty) <==> (old(self).locked(ty) || strs(
                    token_types@,
                ).contains(ty)),
            final(self).tokens_by_id@ == old(self).tokens_by_id@,
            final(self).tokens_per_owner@ == old(self).tokens_per_owner@,
            final(self).tokens_per_creator@ == old(self).tokens_per_creator@,
            final(self).tokens_per_type@ == old(self).tokens_per_type@,
            final(self).supply_cap_by_type@ == old(self).supply_cap_by_type@,
            final(self).profiles@ == old(self).profiles@,
            final(self).owner_id == old(self).owner_id,
            final(self).extra_storage_in_bytes_per_token == old(
                self,
            ).extra_storage_in_bytes_per_token,
            final(self).contract_royalty == old(self).contract_royalty,
            final(self).use_storage_fees == old(self).use_storage_fees,
            final(self).free_mints == old(self).free_mints,
            final(self).version == old(self).version,
    {
        let ghost pre = *self;
        let n = token_types.len();
        let mut i: usize = 0;
        while i < n
            invariant
                n == token_types@.len(),
                0 <= i <= n,
                pre == *old(self),
                pre.inv(),
                labels_distinct(self.token_types_locked@),
                forall|ty: Seq<char>|
                    #[trigger] strs(self.token_types_locked@).contains(ty) <==> (strs(
                        pre.token_types_locked@,
                    ).contains(ty) || exists|j: int| 0 <= j < i && token_types@[j]@ == ty),
                self.tokens_by_id@ == pre.tokens_by_id@,
                self.tokens_per_owner@ == pre.tokens_per_owner@,
                self.tokens_per_creator@ == pre.tokens_per_creator@,
                self.tokens_per_type@ == pre.tokens_per_type@,
                self.supply_cap_by_type@ == pre.supply_cap_by_type@,
                self.profiles@ == pre.profiles@,
                self.owner_id == pre.owner_id,
                self.extra_storage_in_bytes_per_token == pre.extra_storage_in_bytes_per_token,
                self.contract_royalty == pre.contract_royalty,
                self.use_storage_fees == pre.use_storage_fees,
                self.free_mints == pre.free_mints,
                self.version == pre.version,
            decreases n - i,
        {
            labels_insert(&mut self.token_types_locked, token_types[i].clone());
            proof {
                assert forall|ty: Seq<char>|
                    #[trigger] strs(self.token_types_locked@).contains(ty) <==> (strs(
                        pre.token_types_locked@,
                    ).contains(ty) || exists|j: int|
                        0 <= j < i + 1 && token_types@[j]@ == ty) by {
                    if strs(self.token_types_locked@).contains(ty) && !strs(
                        pre.token_types_locked@,
                    ).contains(ty) {
                        if ty == token_types@[i as int]@ {
                            assert(0 <= i < i + 1 && token_types@[i as int]@ == ty);
                        } else {
                            let j = choose|j: int| 0 <= j < i && token_types@[j]@ == ty;
                            assert(0 <= j < i + 1 && token_types@[j]@ == ty);
                        }
                    }
                    if exists|j: int| 0 <= j < i + 1 && token_types@[j]@ == ty {
                        let j = choose|j: int| 0 <= j < i + 1 && token_types@[j]@ == ty;
                        if j == i {
                            assert(ty == token_types@[i as int]@);
                        }
                    }
                }
            }
            i = i + 1;
        }
        proof {
            assert forall|ty: Seq<char>|
                #[trigger] self.locked(ty) <==> (pre.locked(ty) || strs(token_types@).contains(
                    ty,
                )) by {
                assert(strs(self.token_types_locked@).contains(ty) <==> (strs(
                    pre.token_types_locked@,
                ).contains(ty) || exists|j: int| 0 <= j < n && token_types@[j]@ == ty));
                if strs(token_types@).contains(ty) {
                    let j = choose|j: int|
                        0 <= j < strs(token_types@).len() && strs(token_types@)[j] == ty;
                    assert(token_types@[j]@ == ty);
                }
                if exists|j: int| 0 <= j < n && token_types@[j]@ == ty {
                    let j = choose|j: int| 0 <= j < n && token_types@[j]@ == ty;
                    assert(strs(token_types@)[j] == ty);
                }
            }
            assert forall|ty: Seq<char>| #[trigger] self.cap_of(ty) >= pre.cap_of(ty) by {}
            lemma_inv_admin(*self, pre);
        }
    }

    /// Unlocks the creation gate of each named type.
    pub fn unlock_token_types(&mut self, token_types: &Vec<String>)
        requires
            old(self).inv(),
        ensures
            final(self).inv(),
            forall|ty: Seq<char>|
                #[trigger] final(self).locked(ty) <==> (old(self).locked(ty) && !strs(
                    token_types@,
                ).contains(ty)),
            final(self).tokens_by_id@ == old(self).tokens_by_id@,
            final(self).tokens_per_owner@ == old(self).tokens_per_owner@,
            final(self).tokens_per_creator@ == old(self).tokens_per_creator@,
            final(self).tokens_per_type@ == old(self).tokens_per_type@,
            final(self).supply_cap_by_type@ == old(self).supply_cap_by_type@,
            final(self).profiles@ == old(self).profiles@,
            final(self).owner_id == old(self).owner_id,
            final(self).extra_storage_in_bytes_per_token == old(
                self,
            ).extra_storage_in_bytes_per_token,
            final(self).contract_royalty == old(self).contract_royalty,
            final(self).use_storage_fees == old(self).use_storage_fees,
            final(self).free_mints == old(self).free_mints,
            final(self).version == old(self).version,
    {
        let ghost pre = *self;
        let n = token_types.len();
        let mut i: usize = 0;
        while i < n
            invariant
                n == token_types@.len(),
                0 <= i <= n,
                pre == *old(self),
                pre.inv(),
                labels_distinct(self.token_types_locked@),
                forall|ty: Seq<char>|
                    #[trigger] strs(self.token_types_locked@).contains(ty) <==> (strs(
                        pre.token_types_locked@,
                    ).contains(ty) && !(exists|j: int| 0 <= j < i && token_types@[j]@ == ty)),
                self.tokens_by_id@ == pre.tokens_by_id@,
                self.tokens_per_owner@ == pre.tokens_per_owner@,
                self.tokens_per_creator@ == pre.tokens_per_creator@,
                self.tokens_per_type@ == pre.tokens_per_type@,
                self.supply_cap_by_type@ == pre.supply_cap_by_type@,
                self.profiles@ == pre.profiles@,
                self.owner_id == pre.owner_id,
                self.extra_storage_in_bytes_per_token == pre.extra_storage_in_bytes_per_token,
                self.contract_royalty == pre.contract_royalty,
                self.use_storage_fees == pre.use_storage_fees,
                self.free_mints == pre.free_mints,
                self.version == pre.version,
            decreases n - i,
        {
            labels_remove(&mut self.token_types_locked, &token_types[i]);
            proof {
                assert forall|ty: Seq<char>|
                    #[trigger] strs(self.token_types_locked@).contains(ty) <==> (strs(
                        pre.token_types_locked@,
                    ).contains(ty) && !(exists|j: int|
                        0 <= j < i + 1 && token_types@[j]@ == ty)) by {
                    if exists|j: int| 0 <= j < i + 1 && token_types@[j]@ == ty {
                        let j = choose|j: int| 0 <= j < i + 1 && token_types@[j]@ == ty;
                        if j == i {
                            assert(ty == token_types@[i as int]@);
                        } else {
                            assert(0 <= j < i && token_types@[j]@ == ty);
                        }
                    }
                }
            }
            i = i + 1;
        }
        proof {
            assert forall|ty: Seq<char>|
                #[trigger] self.locked(ty) <==> (pre.locked(ty) && !strs(token_types@).contains(
                    ty,
                )) by {
                assert(strs(self.token_types_locked@).contains(ty) <==> (strs(
                    pre.token_types_locked@,
                ).contains(ty) && !(exists|j: int| 0 <= j < n && token_types@[j]@ == ty)));
                if strs(token_types@).contains(ty) {
                    let j = choose|j: int|
                        0 <= j < strs(token_types@).len() && strs(token_types@)[j] == ty;
                    assert(token_types@[j]@ == ty);
                }
                if exists|j: int| 0 <= j < n && token_types@[j]@ == ty {
                    let j = choose|j: int| 0 <= j < n && token_types@[j]@ == ty;
                    assert(strs(token_types@)[j] == ty);
                }
            }
            assert forall|ty: Seq<char>| #[trigger] self.cap_of(ty) >= pre.cap_of(ty) by {}
            lemma_inv_admin(*self, pre);
        }
    }

    /// Sets the contract-wide operator royalty, capped at
    /// `CONTRACT_ROYALTY_CAP` basis points.
    pub fn set_contract_royalty(&mut self, contract_royalty: u32) -> (r: Result<
        (),
        RegistryError,
    >)
        requires
            old(self).inv(),
        ensures
            final(self).inv(),
            contract_royalty <= CONTRACT_ROYALTY_CAP ==> r == Ok::<(), RegistryError>(())
                && final(self).contract_royalty == contract_royalty && final(self).admin_rest_same(
                *old(self),
            ) && final(self).stores_same(*old(self)),
            contract_royalty > CONTRACT_ROYALTY_CAP ==> r == Err::<(), RegistryError>(
                RegistryError::RoyaltyCapExceeded,
            ) && *final(self) == *old(self),
    {
        if contract_royalty > CONTRACT_ROYALTY_CAP {
            return Err(RegistryError::RoyaltyCapExceeded);
        }
        let ghost pre = *self;
        self.contract_royalty = contract_royalty;
        proof {
            assert forall|ty: Seq<char>| #[trigger] self.cap_of(ty) >= pre.cap_of(ty) by {}
            lemma_inv_admin(*self, pre);
        }
        Ok(())
    }

    /// The token store and every index read as in `other`.
    pub open spec fn stores_same(self, other: Contract) -> bool {
        &&& self.tokens_by_id@ == other.tokens_by_id@
        &&& self.tokens_per_owner@ == other.tokens_per_owner@
        &&& self.tokens_per_creator@ == other.tokens_per_creator@
        &&& self.tokens_per_type@ == other.tokens_per_type@
    }

    /// Administrative state other than the operator royalty, as in `other`.
    pub open spec fn admin_rest_same(self, other: Contract) -> bool {
        &&& self.owner_id == other.owner_id
        &&& self.extra_storage_in_bytes_per_token == other.extra_storage_in_bytes_per_token
        &&& self.supply_cap_by_type@ == other.supply_cap_by_type@
        &&& self.token_types_locked@ == other.token_types_locked@
        &&& self.profiles@ == other.profiles@
        &&& self.use_storage_fees == other.use_storage_fees
        &&& self.free_mints == other.free_mints
        &&& self.version == other.version
    }

    /// Stores the caller's profile, replacing any earlier one. The length
    /// ceilings here count characters; the hosting contract enforces the
    /// same ceilings in bytes before calling in, which is at least as
    /// strict, so its callers always meet these bounds.
    pub fn set_profile(&mut self, account_id: &String, profile: Profile)
        requires
            old(self).inv(),
            profile.bio@.len() < MAX_PROFILE_BIO_LENGTH as int,
            profile.image@.len() < MAX_PROFILE_IMAGE_LENGTH as int,
        ensures
            final(self).inv(),
            find(final(self).profiles@, account_id@) == Some(profile),
            forall|k: Seq<char>|
                k != account_id@ ==> #[trigger] find(final(self).profiles@, k) == find(
                    old(self).profiles@,
                    k,
                ),
            final(self).stores_same(*old(self)),
            final(self).supply_cap_by_type@ == old(self).supply_cap_by_type@,
            final(self).token_types_locked@ == old(self).token_types_locked@,
            final(self).contract_royalty == old(self).contract_royalty,
            final(self).owner_id == old(self).owner_id,
            final(self).extra_storage_in_bytes_per_token == old(
                self,
            ).extra_storage_in_bytes_per_token,
            final(self).use_storage_fees == old(self).use_storage_fees,
            final(self).free_mints == old(self).free_mints,
            final(self).version == old(self).version,
    {
        let ghost pre = *self;
        assoc_set(&mut self.profiles, account_id, profile);
        proof {
            assert forall|ty: Seq<char>| #[trigger] self.cap_of(ty) >= pre.cap_of(ty) by {}
            lemma_inv_admin(*self, pre);
        }
    }

    /// Reads a stored profile.
    pub fn get_profile(&self, account_id: &String) -> (r: Option<Profile>)
        requires
            self.inv(),
        ensures
            match r {
                Some(p) => find(self.profiles@, account_id@) == Some(p),
                None => find(self.profiles@, account_id@) is None,
            },
    {
        match assoc_get(&self.profiles, account_id) {
            Some(p) => Some(Profile { bio: p.bio.clone(), image: p.image.clone() }),
            None => None,
        }
    }

    /// The schema version of this registry.
    pub fn get_version(&self) -> (r: u16)
        ensures
            r == self.version,
    {
        self.version
    }

    /// Turns storage fees on or off.
    pub fn set_use_storage_fees(&mut self, use_storage_fees: bool)
        requires
            old(self).inv(),
        ensures
            final(self).inv(),
            final(self).use_storage_fees == use_storage_fees,
            final(self).stores_same(*old(self)),
            final(self).supply_cap_by_type@ == old(self).supply_cap_by_type@,
            final(self).token_types_locked@ == old(self).token_types_locked@,
            final(self).profiles@ == old(self).profiles@,
            final(self).contract_royalty == old(self).contract_royalty,
            final(self).owner_id == old(self).owner_id,
            final(self).extra_storage_in_bytes_per_token == old(
                self,
            ).extra_storage_in_bytes_per_token,
            final(self).free_mints == old(self).free_mints,
            final(self).version == old(self).version,
    {
        let ghost pre = *self;
        self.use_storage_fees = use_storage_fees;
        proof {
            assert forall|ty: Seq<char>| #[trigger] self.cap_of(ty) >= pre.cap_of(ty) by {}
            lemma_inv_admin(*self, pre);
        }
    }

    pub fn get_use_storage_fees(&self) -> (r: bool)
        ensures
            r == self.use_storage_fees,
    {
        self.use_storage_fees
    }

    pub fn get_free_mints(&self) -> (r: u64)
        ensures
            r == self.free_mints,
    {
        self.free_mints
    }

    pub fn get_contract_royalty(&self) -> (r: u32)
        ensures
            r == self.contract_royalty,
    {
        self.contract_royalty
    }

    /// The cached per-entry storage cost measured at initialization; no
    /// operation after initialization ever rewrites it.
    pub fn get_storage_cost_per_token(&self) -> (r: u64)
        ensures
            r == self.extra_storage_in_bytes_per_token,
    {
        self.extra_storage_in_bytes_per_token
    }

    /// How many tokens an account has created.
    pub fn get_tokens_created(&self, account_id: &String) -> (r: u64)
        requires
            self.inv(),
        ensures
            r == self.creator_ids(account_id@).len(),
    {
        index_count(&self.tokens_per_creator, account_id)
    }

    /// A free mint is available while fees are off and the account stays
    /// under the free allowance.
    pub fn is_free_mint_available(&self, account_id: &String) -> (r: bool)
        requires
            self.inv(),
        ensures
            r == (!self.use_storage_fees && self.creator_ids(account_id@).len() < self.free_mints),
    {
        if !self.use_storage_fees {
            self.get_tokens_created(account_id) < self.free_mints
        } else {
            false
        }
    }

    /// The declared supply caps.
    pub fn get_supply_caps(&self) -> (r: Vec<(String, u64)>)
        ensures
            r@ == self.supply_cap_by_type@,
    {
        clone_pairs(&self.supply_cap_by_type)
    }

    /// The currently locked type labels.
    pub fn get_token_types_locked(&self) -> (r: Vec<String>)
        ensures
            r@ == self.token_types_locked@,
    {
        crate::token::clone_labels(&self.token_types_locked)
    }

    /// One token after the data-repair pass: the record is unchanged except
    /// that its royalty table now maps `acct` to `amount`.
    pub open spec fn royalty_backfilled(t2: Token, t1: Token, acct: Seq<char>, amount: u32) -> bool {
        &&& t2.owner_id == t1.owner_id
        &&& t2.creator_id == t1.creator_id
        &&& t2.token_type == t1.token_type
        &&& keys_distinct(t2.royalty@)
        &&& find(t2.royalty@, acct) == Some(amount)
        &&& forall|k: Seq<char>| k != acct ==> find(t2.royalty@, k) == find(t1.royalty@, k)
    }

    /// A one-time administrative data repair: grants `payout_account` a
    /// royalty entry of `amount` basis points on every registered token.
    /// This is an explicit opt-in maintenance operation, never run as part
    /// of ordinary type declaration, and it bypasses the minter royalty
    /// validation by design.
    pub fn apply_royalty_backfill(&mut self, payout_account: &String, amount: u32)
        requires
            old(self).inv(),
        ensures
            final(self).inv(),
            forall|id: Seq<char>|
                match (#[trigger] final(self).token_of(id), old(self).token_of(id)) {
                    (Some(t2), Some(t1)) => Contract::royalty_backfilled(
                        t2,
                        t1,
                        payout_account@,
                        amount,
                    ),
                    (None, None) => true,
                    _ => false,
                },
            final(self).all_ids() == old(self).all_ids(),
            final(self).tokens_per_owner@ == old(self).tokens_per_owner@,
            final(self).tokens_per_creator@ == old(self).tokens_per_creator@,
            final(self).tokens_per_type@ == old(self).tokens_per_type@,
            final(self).supply_cap_by_type@ == old(self).supply_cap_by_type@,
            final(self).token_types_locked@ == old(self).token_types_locked@,
            final(self).profiles@ == old(self).profiles@,
            final(self).owner_id == old(self).owner_id,
            final(self).extra_storage_in_bytes_per_token == old(
                self,
            ).extra_storage_in_bytes_per_token,
            final(self).contract_royalty == old(self).contract_royalty,
            final(self).use_storage_fees == old(self).use_storage_fees,
            final(self).free_mints == old(self).free_mints,
            final(self).version == old(self).version,
    {
        let ghost pre = *self;
        let ghost rel = |t2: Token, t1: Token|
            Contract::royalty_backfilled(t2, t1, payout_account@, amount);
        let n = self.tokens_by_id.len();
        let mut i: usize = 0;
        while i < n
            invariant
                n == self.tokens_by_id@.len(),
                n == pre.tokens_by_id@.len(),
                0 <= i <= n,
                pre == *old(self),
                pre.inv(),
                rel == (|t2: Token, t1: Token|
                    Contract::royalty_backfilled(t2, t1, payout_account@, amount)),
                forall|j: int|
                    0 <= j < n ==> #[trigger] self.tokens_by_id@[j].0@ == pre.tokens_by_id@[j].0@,
                forall|j: int|
                    i <= j < n ==> #[trigger] self.tokens_by_id@[j] == pre.tokens_by_id@[j],
                forall|j: int|
                    0 <= j < i ==> #[trigger] rel(
                        self.tokens_by_id@[j].1,
                        pre.tokens_by_id@[j].1,
                    ),
                self.tokens_per_owner@ == pre.tokens_per_owner@,
                self.tokens_per_creator@ == pre.tokens_per_creator@,
                self.tokens_per_type@ == pre.tokens_per_type@,
                self.supply_cap_by_type@ == pre.supply_cap_by_type@,
                self.token_types_locked@ == pre.token_types_locked@,
                self.profiles@ == pre.profiles@,
                self.owner_id == pre.owner_id,
                self.extra_storage_in_bytes_per_token == pre.extra_storage_in_bytes_per_token,
                self.contract_royalty == pre.contract_royalty,
                self.use_storage_fees == pre.use_storage_fees,
                self.free_mints == pre.free_mints,
                self.version == pre.version,
            decreases n - i,
        {
            let entry = self.tokens_by_id.remove(i);
            let (key, t) = entry;
            proof {
                crate::assoc::lemma_find_at(pre.tokens_by_id@, pre.tokens_by_id@[i as int].0@, i as int);
                assert(pre.token_of(pre.tokens_by_id@[i as int].0@) == Some(
                    pre.tokens_by_id@[i as int].1,
                ));
                assert(keys_distinct(t.royalty@));
            }
            let Token { owner_id, creator_id, token_type, mut royalty } = t;
            assoc_set(&mut royalty, payout_account, amount);
            let t2 = Token { owner_id, creator_id, token_type, royalty };
            let ghost mid = self.tokens_by_id@;
            self.tokens_by_id.insert(i, (key, t2));
            proof {
                assert(self.tokens_by_id@ =~= mid.insert(i as int, (key, t2)));
                assert forall|j: int|
                    0 <= j < n implies #[trigger] self.tokens_by_id@[j].0@
                    == pre.tokens_by_id@[j].0@ by {
                    if j < i {
                        assert(self.tokens_by_id@[j] == mid[j]);
                    } else if j == i {
                    } else {
                        assert(self.tokens_by_id@[j] == mid[j - 1]);
                    }
                }
                assert forall|j: int|
                    i + 1 <= j < n implies #[trigger] self.tokens_by_id@[j]
                    == pre.tokens_by_id@[j] by {
                    assert(self.tokens_by_id@[j] == mid[j - 1]);
                }
                assert forall|j: int|
                    0 <= j < i + 1 implies #[trigger] rel(
                        self.tokens_by_id@[j].1,
                        pre.tokens_by_id@[j].1,
                    ) by {
                    if j < i {
                        assert(self.tokens_by_id@[j] == mid[j]);
                    } else {
                        assert(self.tokens_by_id@[j].1 == t2);
                        assert(Contract::royalty_backfilled(
                            t2,
                            pre.tokens_by_id@[i as int].1,
                            payout_account@,
                            amount,
                        ));
                    }
                }
            }
            i = i + 1;
        }
        proof {
            let post = *self;
            assert(keys_distinct(post.tokens_by_id@)) by {
                assert forall|a: int, b: int|
                    0 <= a < b < post.tokens_by_id@.len() implies post.tokens_by_id@[a].0@
                    != post.tokens_by_id@[b].0@ by {
                    assert(post.tokens_by_id@[a].0@ == pre.tokens_by_id@[a].0@);
                    assert(post.tokens_by_id@[b].0@ == pre.tokens_by_id@[b].0@);
                }
            }
            assert(post.all_ids() =~= pre.all_ids());
            assert forall|id: Seq<char>|
                match (#[trigger] post.token_of(id), pre.token_of(id)) {
                    (Some(t2), Some(t1)) => Contract::royalty_backfilled(
                        t2,
                        t1,
                        payout_account@,
                        amount,
                    ),
                    (None, None) => true,
                    _ => false,
                } by {
                crate::assoc::lemma_find_mapped(post.tokens_by_id@, pre.tokens_by_id@, id, rel);
            }
            assert forall|a: Seq<char>, x: Seq<char>|
                #[trigger] ids_of(post.tokens_per_owner@, a).contains(x) <==> (match find(
                    post.tokens_by_id@,
                    x,
                ) {
                    Some(t) => owner_sel()(t) == Some(a),
                    None => false,
                }) by {
                crate::assoc::lemma_find_mapped(post.tokens_by_id@, pre.tokens_by_id@, x, rel);
            }
            assert forall|a: Seq<char>, x: Seq<char>|
                #[trigger] ids_of(post.tokens_per_creator@, a).contains(x) <==> (match find(
                    post.tokens_by_id@,
                    x,
                ) {
                    Some(t) => creator_sel()(t) == Some(a),
                    None => false,
                }) by {
                crate::assoc::lemma_find_mapped(post.tokens_by_id@, pre.tokens_by_id@, x, rel);
            }
            assert forall|a: Seq<char>, x: Seq<char>|
                #[trigger] ids_of(post.tokens_per_type@, a).contains(x) <==> (match find(
                    post.tokens_by_id@,
                    x,
                ) {
                    Some(t) => type_sel()(t) == Some(a),
                    None => false,
                }) by {
                crate::assoc::lemma_find_mapped(post.tokens_by_id@, pre.tokens_by_id@, x, rel);
            }
            assert forall|ty: Seq<char>| (#[trigger] post.type_ids(ty)).len() <= post.cap_of(
                ty,
            ) by {
                assert(post.type_ids(ty) == pre.type_ids(ty));
                assert(post.cap_of(ty) == pre.cap_of(ty));
            }
            assert forall|id: Seq<char>| (#[trigger] post.token_of(id)) is Some implies token_wf(
                post.token_of(id)->Some_0,
            ) by {
                crate::assoc::lemma_find_mapped(post.tokens_by_id@, pre.tokens_by_id@, id, rel);
            }
        }
    }

    /// Whether a token's type is locked; fails rather than defaulting when
    /// the token does not exist or carries no type.
    pub fn is_token_locked(&self, token_id: &String) -> (r: Result<bool, RegistryError>)
        requires
            self.inv(),
        ensures
            match self.token_of(token_id@) {
                Some(t) => match t.token_type {
                    Some(ty) => r == Ok::<bool, RegistryError>(self.locked(ty@)),
                    None => r == Err::<bool, RegistryError>(RegistryError::NotFound),
                },
                None => r == Err::<bool, RegistryError>(RegistryError::NotFound),
            },
    {
        match assoc_get(&self.tokens_by_id, token_id) {
            Some(t) => match &t.token_type {
                Some(ty) => Ok(labels_contain(&self.token_types_locked, ty)),
                None => Err(RegistryError::NotFound),
            },
            None => Err(RegistryError::NotFound),
        }
    }
}

} // verus!
