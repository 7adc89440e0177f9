//! The storage-cost probe: the synthetic maximum-length account identifier
//! and the back-calculation of one index entry's marginal byte cost.
//!
//! The host meters storage usage; the caller reads the meter before and
//! after writing one synthetic per-owner entry under the maximum-length
//! identifier, and this module turns the two readings into the cached
//! per-entry cost.

use vstd::prelude::*;

verus! {

/// The platform's ceiling on account identifier length, in characters.
pub const PROBE_ACCOUNT_ID_LENGTH: usize = 64;

/// The cost estimate: the raw usage delta of the synthetic entry, less the
/// length headroom between the synthetic identifier and the registry
/// owner's identifier. Saturates at zero rather than going negative.
pub open spec fn probe_cost(before: int, after: int, owner_len: int) -> int {
    let delta = if after >= before {
        after - before
    } else {
        0
    };
    let adjust = if owner_len <= 64 {
        64 - owner_len
    } else {
        0
    };
    if delta >= adjust {
        delta - adjust
    } else {
        0
    }
}

/// Turns the two meter readings into the per-entry cost.
pub fn compute_entry_cost(usage_before: u64, usage_after: u64, owner_len: u64) -> (r: u64)
    ensures
        r as int == probe_cost(usage_before as int, usage_after as int, owner_len as int),
{
    let delta: u64 = if usage_after >= usage_before {
        usage_after - usage_before
    } else {
        0
    };
    let adjust: u64 = if owner_len <= 64 {
        64 - owner_len
    } else {
        0
    };
    if delta >= adjust {
        delta - adjust
    } else {
        0
    }
}

/// The synthetic probe identifier: the letter `a` repeated to the
/// platform's length ceiling.
pub fn probe_account_id() -> (r: String)
    ensures
        r@.len() == PROBE_ACCOUNT_ID_LENGTH as int,
{
    let s = "aaaaaaaaaaaaaaaaaaaaaaaaaaaaaaaaaaaaaaaaaaaaaaaaaaaaaaaaaaaaaaaa";
    proof {
        reveal_strlit("aaaaaaaaaaaaaaaaaaaaaaaaaaaaaaaaaaaaaaaaaaaaaaaaaaaaaaaaaaaaaaaa");
    }
    s.to_owned()
}

/// The raw storage key under which the synthetic probe entry is written:
/// the per-owner index's namespace tag, the little-endian length of the
/// synthetic identifier, then the identifier's bytes (the letter `a`, byte
/// 97, repeated to the 64-byte ceiling). This is the per-owner entry layout
/// the host glue uses, so the probe measures a real entry's footprint.
pub fn probe_entry_key() -> (k: Vec<u8>)
    ensures
        k@.len() == 69,
        k@[0] == StorageKey::TokensPerOwner.spec_prefix(),
        k@[1] == 64u8,
        k@[2] == 0u8,
        k@[3] == 0u8,
        k@[4] == 0u8,
        forall|i: int| 5 <= i < 69 ==> k@[i] == 97u8,
{
    let mut k: Vec<u8> = Vec::new();
    k.push(StorageKey::TokensPerOwner.prefix());
    k.push(64u8);
    k.push(0u8);
    k.push(0u8);
    k.push(0u8);
    let mut i: usize = 0;
    while i < 64
        invariant
            0 <= i <= 64,
            k@.len() == 5 + i,
            k@[0] == StorageKey::TokensPerOwner.spec_prefix(),
            k@[1] == 64u8,
            k@[2] == 0u8,
            k@[3] == 0u8,
            k@[4] == 0u8,
            forall|j: int| 5 <= j < 5 + i ==> k@[j] == 97u8,
        decreases 64 - i,
    {
        k.push(97u8);
        i = i + 1;
    }
    k
}

/// Relies on near_sdk::env::storage_usage: the number of bytes the host
/// currently charges this registry for. The reading depends on the host's
/// state, so nothing is promised of it.
#[verifier::external_body]
pub(crate) fn host_storage_usage() -> u64 {
    near_sdk::env::storage_usage()
}

/// Relies on near_sdk::env::storage_write: stores `value` under `key` in the
/// host's trie and reports whether the key was already present. The host
/// aborts on keys over 2048 bytes or values over 4 MiB, so those inputs are
/// excluded. The host's state is not modeled, so nothing is promised of the
/// result.
#[verifier::external_body]
pub(crate) fn host_storage_write(key: &Vec<u8>, value: &Vec<u8>) -> bool
    requires
        key@.len() <= 2048,
        value@.len() <= 4194304,
{
    near_sdk::env::storage_write(key.as_slice(), value.as_slice())
}

/// Relies on near_sdk::env::storage_remove: deletes `key` from the host's
/// trie and reports whether it was present. The host aborts on keys over
/// 2048 bytes, so those are excluded. Nothing is promised of the result.
#[verifier::external_body]
pub(crate) fn host_storage_remove(key: &Vec<u8>) -> bool
    requires
        key@.len() <= 2048,
{
    near_sdk::env::storage_remove(key.as_slice())
}

/// Names for the disjoint storage namespaces of the persisted collections;
/// nested per-key sets derive their region from the parent key's hash.
pub enum StorageKey {
    TokensPerOwner,
    TokenPerOwnerInner { account_id_hash: Vec<u8> },
    TokensPerCreator,
    TokenPerCreatorInner { account_id_hash: Vec<u8> },
    TokensById,
    TokenMetadataById,
    NftMetadata,
    TokensPerType,
    TokensPerTypeInner { token_type_hash: Vec<u8> },
    TokenTypesLocked,
    Profiles,
}

impl StorageKey {
    /// The namespace tag of this key, distinct per variant.
    pub open spec fn spec_prefix(self) -> u8 {
        match self {
            StorageKey::TokensPerOwner => 0,
            StorageKey::TokenPerOwnerInner { .. } => 1,
            StorageKey::TokensPerCreator => 2,
            StorageKey::TokenPerCreatorInner { .. } => 3,
            StorageKey::TokensById => 4,
            StorageKey::TokenMetadataById => 5,
            StorageKey::NftMetadata => 6,
            StorageKey::TokensPerType => 7,
            StorageKey::TokensPerTypeInner { .. } => 8,
            StorageKey::TokenTypesLocked => 9,
            StorageKey::Profiles => 10,
        }
    }

    /// The namespace tag as executable code.
    pub fn prefix(&self) -> (r: u8)
        ensures
            r == self.spec_prefix(),
    {
        match self {
            StorageKey::TokensPerOwner => 0,
            StorageKey::TokenPerOwnerInner { .. } => 1,
            StorageKey::TokensPerCreator => 2,
            StorageKey::TokenPerCreatorInner { .. } => 3,
            StorageKey::TokensById => 4,
            StorageKey::TokenMetadataById => 5,
            StorageKey::NftMetadata => 6,
            StorageKey::TokensPerType => 7,
            StorageKey::TokensPerTypeInner { .. } => 8,
            StorageKey::TokenTypesLocked => 9,
            StorageKey::Profiles => 10,
        }
    }
}

} // verus!
