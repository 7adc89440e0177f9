//! A multi-index registry of uniquely identified tokens.
//!
//! Each token is owned by one account, created by one account, and may carry
//! a type label. The registry keeps the canonical token store and three
//! derived indices (by owner, by creator, by type) consistent, enforces
//! per-type supply caps and lock flags, bounds royalty settings, and
//! measures the marginal storage cost of one index entry once at
//! initialization.

use vstd::prelude::*;

pub mod assoc;
pub mod enumerate;
pub mod index;
pub mod probe;
pub mod registry;
pub mod strset;
pub mod token;

verus! {

/// Upper bound, in basis points, on the contract-wide operator royalty.
pub const CONTRACT_ROYALTY_CAP: u32 = 1000;

/// Upper bound, in basis points, on the royalty a minter may attach to one token.
pub const MINTER_ROYALTY_CAP: u32 = 9000;

/// Everything that can go wrong in a registry operation.
///
/// Queries for unknown keys yield empty results rather than errors; these
/// variants are for operations that must reject their input outright.
#[derive(Clone, Copy, Debug, PartialEq, Eq, Structural)]
pub enum RegistryError {
    /// An operation required a token (or its type) that is not registered.
    NotFound,
    /// A creation attempt for a type whose index already holds `cap` tokens,
    /// or for a type that was never declared (undeclared types have cap 0).
    CapacityExceeded,
    /// A creation attempt for a type whose creation gate is locked.
    LockedType,
    /// An operator or minter royalty setting above its ceiling.
    RoyaltyCapExceeded,
    /// A creation attempt that reuses an identifier already in the store.
    DuplicateToken,
    /// A reverse-pagination offset at or beyond the collection length.
    IllegalOffset,
}

} // verus!
