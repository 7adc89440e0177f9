use nft_registry::registry::Contract;
use nft_registry::RegistryError;
use nft_registry::probe::{compute_entry_cost, probe_account_id, probe_entry_key, StorageKey};
use nft_registry::token::Profile;

fn fresh(caps: Vec<(&str, u64)>, unlocked: Option<bool>) -> Contract {
    let caps: Vec<(String, u64)> = caps.into_iter().map(|(k, v)| (k.to_string(), v)).collect();
    Contract::new("operator.test".to_string(), caps, false, 3, unlocked, 100, 204)
}

fn mint(c: &mut Contract, id: &str, owner: &str, creator: &str, ty: Option<&str>) -> Result<(), RegistryError> {
    c.register_token(
        id.to_string(),
        owner.to_string(),
        creator.to_string(),
        ty.map(|t| t.to_string()),
        Vec::new(),
    )
}

#[test]
fn scenario_type_a_cap_two() {
    let mut c = fresh(vec![("A", 2)], Some(true));
    assert!(mint(&mut c, "t1", "alice", "alice", Some("A")).is_ok());
    assert!(mint(&mut c, "t2", "bob", "alice", Some("A")).is_ok());
    assert_eq!(
        mint(&mut c, "t3", "carol", "alice", Some("A")),
        Err(RegistryError::CapacityExceeded)
    );
    assert_eq!(c.nft_supply_for_type(&"A".to_string()), 2);
    assert_eq!(c.nft_supply_for_creator(&"alice".to_string()), 2);
    assert!(c.reassign_owner(&"t1".to_string(), &"alice".to_string(), &"carol".to_string()).is_ok());
    assert_eq!(c.nft_supply_for_owner(&"alice".to_string()), 0);
    assert_eq!(c.nft_supply_for_owner(&"carol".to_string()), 1);
    assert_eq!(c.nft_supply_for_owner(&"bob".to_string()), 1);
}

#[test]
fn cap_enforcement_leaves_state_unchanged() {
    let mut c = fresh(vec![("A", 1)], Some(true));
    assert!(mint(&mut c, "t1", "alice", "alice", Some("A")).is_ok());
    let before_type = c.nft_supply_for_type(&"A".to_string());
    let before_total = c.nft_total_supply();
    assert_eq!(
        mint(&mut c, "t2", "bob", "bob", Some("A")),
        Err(RegistryError::CapacityExceeded)
    );
    assert_eq!(c.nft_supply_for_type(&"A".to_string()), before_type);
    assert_eq!(c.nft_total_supply(), before_total);
    assert!(c.nft_token(&"t2".to_string()).is_none());
    assert_eq!(c.nft_supply_for_owner(&"bob".to_string()), 0);
}

#[test]
fn undeclared_type_is_uncreatable() {
    let mut c = fresh(vec![], Some(true));
    assert_eq!(
        mint(&mut c, "t1", "alice", "alice", Some("Mystery")),
        Err(RegistryError::CapacityExceeded)
    );
    assert!(!c.can_create(&"Mystery".to_string()));
}

#[test]
fn lock_enforcement() {
    // types declared without an explicit unlock start locked
    let mut c = fresh(vec![("B", 5)], None);
    assert_eq!(
        mint(&mut c, "t1", "alice", "alice", Some("B")),
        Err(RegistryError::LockedType)
    );
    c.unlock_token_types(&vec!["B".to_string()]);
    assert!(c.can_create(&"B".to_string()));
    assert!(mint(&mut c, "t1", "alice", "alice", Some("B")).is_ok());
    c.lock_token_types(&vec!["B".to_string()]);
    assert_eq!(
        mint(&mut c, "t2", "bob", "bob", Some("B")),
        Err(RegistryError::LockedType)
    );
    // earlier tokens stay queryable and indexed
    assert!(c.nft_token(&"t1".to_string()).is_some());
    assert_eq!(c.nft_supply_for_type(&"B".to_string()), 1);
    assert_eq!(c.is_token_locked(&"t1".to_string()), Ok(true));
    c.unlock_token_types(&vec!["B".to_string()]);
    assert_eq!(c.is_token_locked(&"t1".to_string()), Ok(false));
    assert!(mint(&mut c, "t2", "bob", "bob", Some("B")).is_ok());
}

#[test]
fn operator_royalty_caps() {
    let mut c = fresh(vec![], Some(true));
    assert_eq!(c.set_contract_royalty(1000), Ok(()));
    assert_eq!(c.get_contract_royalty(), 1000);
    assert_eq!(c.set_contract_royalty(1001), Err(RegistryError::RoyaltyCapExceeded));
    assert_eq!(c.get_contract_royalty(), 1000);
}

#[test]
fn minter_royalty_caps() {
    let mut c = fresh(vec![], Some(true));
    let nine_thousand = vec![("a.test".to_string(), 4500u32), ("b.test".to_string(), 4500u32)];
    assert_eq!(
        c.register_token(
            "t1".to_string(),
            "alice".to_string(),
            "alice".to_string(),
            None,
            nine_thousand,
        ),
        Ok(())
    );
    let too_much = vec![("a.test".to_string(), 4500u32), ("b.test".to_string(), 4501u32)];
    assert_eq!(
        c.register_token(
            "t2".to_string(),
            "alice".to_string(),
            "alice".to_string(),
            None,
            too_much,
        ),
        Err(RegistryError::RoyaltyCapExceeded)
    );
    assert!(c.nft_token(&"t2".to_string()).is_none());
}

#[test]
fn duplicate_identifier_rejected() {
    let mut c = fresh(vec![], Some(true));
    assert!(mint(&mut c, "t1", "alice", "alice", None).is_ok());
    assert_eq!(
        mint(&mut c, "t1", "bob", "bob", None),
        Err(RegistryError::DuplicateToken)
    );
    // the first record is untouched
    let v = c.nft_token(&"t1".to_string()).unwrap();
    assert_eq!(v.owner_id, "alice");
    assert_eq!(v.creator_id, "alice");
}

#[test]
fn reassign_requires_matching_owner() {
    let mut c = fresh(vec![], Some(true));
    assert!(mint(&mut c, "t1", "alice", "alice", None).is_ok());
    assert_eq!(
        c.reassign_owner(&"t1".to_string(), &"bob".to_string(), &"carol".to_string()),
        Err(RegistryError::NotFound)
    );
    assert_eq!(
        c.reassign_owner(&"missing".to_string(), &"alice".to_string(), &"bob".to_string()),
        Err(RegistryError::NotFound)
    );
    assert_eq!(c.nft_supply_for_owner(&"alice".to_string()), 1);
}

#[test]
fn reassignment_keeps_creator_and_type() {
    let mut c = fresh(vec![("A", 5)], Some(true));
    assert!(mint(&mut c, "t1", "alice", "alice", Some("A")).is_ok());
    assert!(c.reassign_owner(&"t1".to_string(), &"alice".to_string(), &"bob".to_string()).is_ok());
    let v = c.nft_token(&"t1".to_string()).unwrap();
    assert_eq!(v.owner_id, "bob");
    assert_eq!(v.creator_id, "alice");
    assert_eq!(v.token_type.as_deref(), Some("A"));
    assert_eq!(c.nft_supply_for_creator(&"alice".to_string()), 1);
    assert_eq!(c.nft_supply_for_type(&"A".to_string()), 1);
}

#[test]
fn pagination_boundaries() {
    let mut c = fresh(vec![], Some(true));
    for id in ["t1", "t2", "t3"] {
        assert!(mint(&mut c, id, "alice", "alice", None).is_ok());
    }
    // an absent or zero limit means an empty page, not "no limit"
    assert!(c.nft_tokens(None, None).is_empty());
    assert!(c.nft_tokens(Some(0), Some(0)).is_empty());
    // an offset at or past the end yields an empty page going forward
    assert!(c.nft_tokens(Some(3), Some(2)).is_empty());
    assert!(c.nft_tokens(Some(50), Some(2)).is_empty());
    let page = c.nft_tokens(Some(1), Some(10));
    assert_eq!(page.len(), 2);
    assert_eq!(page[0].token_id, "t2");
    assert_eq!(page[1].token_id, "t3");
}

#[test]
fn reverse_pagination_rejects_out_of_range_offset() {
    let mut c = fresh(vec![], Some(true));
    for id in ["t1", "t2", "t3"] {
        assert!(mint(&mut c, id, "alice", "alice", None).is_ok());
    }
    let back = c.nft_tokens_from_end(0, 2).unwrap();
    assert_eq!(back.len(), 2);
    assert_eq!(back[0].token_id, "t3");
    assert_eq!(back[1].token_id, "t2");
    let rest = c.nft_tokens_from_end(2, 10).unwrap();
    assert_eq!(rest.len(), 1);
    assert_eq!(rest[0].token_id, "t1");
    assert!(matches!(c.nft_tokens_from_end(3, 1), Err(RegistryError::IllegalOffset)));
    assert!(matches!(c.nft_tokens_from_end(7, 1), Err(RegistryError::IllegalOffset)));
}

#[test]
fn batch_omits_missing_identifiers() {
    let mut c = fresh(vec![], Some(true));
    assert!(mint(&mut c, "t1", "alice", "alice", None).is_ok());
    assert!(mint(&mut c, "t3", "bob", "bob", None).is_ok());
    let batch = c.nft_tokens_batch(&vec![
        "t1".to_string(),
        "t2".to_string(),
        "t3".to_string(),
    ]);
    assert_eq!(batch.len(), 2);
    assert_eq!(batch[0].token_id, "t1");
    assert_eq!(batch[1].token_id, "t3");
}

#[test]
fn per_key_pagination() {
    let mut c = fresh(vec![("A", 10)], Some(true));
    assert!(mint(&mut c, "t1", "alice", "alice", Some("A")).is_ok());
    assert!(mint(&mut c, "t2", "bob", "alice", Some("A")).is_ok());
    assert!(mint(&mut c, "t3", "alice", "alice", Some("A")).is_ok());
    let owned = c.nft_tokens_for_owner(&"alice".to_string(), Some(0), Some(10));
    assert_eq!(owned.len(), 2);
    assert_eq!(owned[0].token_id, "t1");
    assert_eq!(owned[1].token_id, "t3");
    assert!(c.nft_tokens_for_owner(&"alice".to_string(), None, None).is_empty());
    assert!(c.nft_tokens_for_owner(&"nobody".to_string(), Some(0), Some(10)).is_empty());
    let created = c.nft_tokens_for_creator(&"alice".to_string(), 1, 10);
    assert_eq!(created.len(), 2);
    assert_eq!(created[0].token_id, "t2");
    assert_eq!(created[1].token_id, "t3");
    let typed = c.nft_tokens_for_type(&"A".to_string(), 0, 2);
    assert_eq!(typed.len(), 2);
    assert_eq!(typed[0].token_id, "t1");
    assert_eq!(typed[1].token_id, "t2");
}

#[test]
fn storage_probe_idempotence() {
    // readings 100 then 204 with a 13-character owner id:
    // delta 104, headroom 64 - 13 = 51, cost 53
    let mut c = fresh(vec![("A", 10)], Some(true));
    let first = c.get_storage_cost_per_token();
    assert_eq!(first, 104 - (64 - "operator.test".len() as u64));
    assert!(mint(&mut c, "t1", "alice", "alice", Some("A")).is_ok());
    assert!(c.reassign_owner(&"t1".to_string(), &"alice".to_string(), &"bob".to_string()).is_ok());
    c.add_token_types(&vec![("B".to_string(), 7)], None);
    assert_eq!(c.set_contract_royalty(10), Ok(()));
    assert_eq!(c.get_storage_cost_per_token(), first);
    assert_eq!(c.get_storage_cost_per_token(), first);
}

#[test]
fn probe_cost_arithmetic() {
    assert_eq!(compute_entry_cost(100, 204, 2), 42);
    // a meter that ran backwards saturates to zero
    assert_eq!(compute_entry_cost(204, 100, 2), 0);
    // an owner longer than the synthetic id gets no headroom subtracted
    assert_eq!(compute_entry_cost(100, 204, 70), 104);
    // a delta below the headroom saturates to zero
    assert_eq!(compute_entry_cost(100, 110, 2), 0);
    assert_eq!(probe_account_id(), "a".repeat(64));
}

#[test]
fn caps_never_lowered() {
    let mut c = fresh(vec![("A", 5)], Some(true));
    c.add_token_types(&vec![("A".to_string(), 3)], Some(true));
    let caps = c.get_supply_caps();
    assert_eq!(caps, vec![("A".to_string(), 5)]);
    c.add_token_types(&vec![("A".to_string(), 9)], Some(true));
    assert_eq!(c.get_supply_caps(), vec![("A".to_string(), 9)]);
}

#[test]
fn declaring_types_locks_by_default() {
    let mut c = fresh(vec![], Some(true));
    c.add_token_types(&vec![("A".to_string(), 2)], None);
    assert_eq!(c.get_token_types_locked(), vec!["A".to_string()]);
    assert!(!c.can_create(&"A".to_string()));
    c.add_token_types(&vec![("B".to_string(), 2)], Some(true));
    assert_eq!(c.get_token_types_locked(), vec!["A".to_string()]);
    assert!(c.can_create(&"B".to_string()));
}

#[test]
fn lock_status_requires_token_and_type() {
    let mut c = fresh(vec![("A", 2)], Some(true));
    assert_eq!(
        c.is_token_locked(&"missing".to_string()),
        Err(RegistryError::NotFound)
    );
    assert!(mint(&mut c, "plain", "alice", "alice", None).is_ok());
    assert_eq!(
        c.is_token_locked(&"plain".to_string()),
        Err(RegistryError::NotFound)
    );
    assert!(mint(&mut c, "typed", "alice", "alice", Some("A")).is_ok());
    assert_eq!(c.is_token_locked(&"typed".to_string()), Ok(false));
}

#[test]
fn profiles_and_free_mints() {
    let mut c = fresh(vec![], Some(true));
    assert!(c.get_profile(&"alice".to_string()).is_none());
    c.set_profile(
        &"alice".to_string(),
        Profile { bio: "hello".to_string(), image: "img".to_string() },
    );
    let p = c.get_profile(&"alice".to_string()).unwrap();
    assert_eq!(p.bio, "hello");
    assert_eq!(p.image, "img");

    assert_eq!(c.get_free_mints(), 3);
    assert!(!c.get_use_storage_fees());
    assert!(c.is_free_mint_available(&"alice".to_string()));
    for id in ["t1", "t2", "t3"] {
        assert!(mint(&mut c, id, "alice", "alice", None).is_ok());
    }
    assert!(!c.is_free_mint_available(&"alice".to_string()));
    assert_eq!(c.get_tokens_created(&"alice".to_string()), 3);
    c.set_use_storage_fees(true);
    assert!(c.get_use_storage_fees());
    assert!(!c.is_free_mint_available(&"bob".to_string()));
    assert_eq!(c.get_version(), 0);
}

#[test]
fn royalty_backfill_updates_every_token() {
    let mut c = fresh(vec![], Some(true));
    let existing = vec![("artist.test".to_string(), 300u32)];
    assert_eq!(
        c.register_token(
            "t1".to_string(),
            "alice".to_string(),
            "alice".to_string(),
            None,
            existing,
        ),
        Ok(())
    );
    let overwritten = vec![("fund.test".to_string(), 500u32)];
    assert_eq!(
        c.register_token(
            "t2".to_string(),
            "bob".to_string(),
            "bob".to_string(),
            None,
            overwritten,
        ),
        Ok(())
    );
    c.apply_royalty_backfill(&"fund.test".to_string(), 200);
    let v1 = c.nft_token(&"t1".to_string()).unwrap();
    assert_eq!(
        v1.royalty,
        vec![("artist.test".to_string(), 300u32), ("fund.test".to_string(), 200u32)]
    );
    let v2 = c.nft_token(&"t2".to_string()).unwrap();
    assert_eq!(v2.royalty, vec![("fund.test".to_string(), 200u32)]);
    assert_eq!(v2.owner_id, "bob");
}

#[test]
fn measured_constructor_probes_the_host() {
    // runs the probe against the (mocked) host storage meter once and
    // caches the one measured value
    let mut c = Contract::new_measured(
        "operator.test".to_string(),
        vec![("A".to_string(), 3)],
        false,
        3,
        Some(true),
    );
    let first = c.get_storage_cost_per_token();
    assert_eq!(c.nft_total_supply(), 0);
    assert!(mint(&mut c, "t1", "alice", "alice", Some("A")).is_ok());
    assert_eq!(c.get_storage_cost_per_token(), first);
    assert_eq!(c.get_storage_cost_per_token(), first);
}

#[test]
fn empty_registry_queries() {
    let c = fresh(vec![], Some(true));
    assert_eq!(c.nft_total_supply(), 0);
    assert!(c.nft_tokens(Some(0), Some(10)).is_empty());
    assert!(matches!(
        c.nft_tokens_from_end(0, 1),
        Err(RegistryError::IllegalOffset)
    ));
    assert!(c.nft_tokens_batch(&vec!["t1".to_string()]).is_empty());
    assert_eq!(c.nft_supply_for_owner(&"alice".to_string()), 0);
    assert_eq!(c.nft_supply_for_creator(&"alice".to_string()), 0);
    assert_eq!(c.nft_supply_for_type(&"A".to_string()), 0);
    assert!(c.get_supply_caps().is_empty());
    assert!(c.get_token_types_locked().is_empty());
}

#[test]
fn untyped_tokens_skip_supply_governance() {
    let mut c = fresh(vec![], None);
    // no declared types, everything locked by default: an untyped token is
    // still mintable, the gates apply to typed creation only
    assert!(mint(&mut c, "plain", "alice", "alice", None).is_ok());
    assert_eq!(c.nft_total_supply(), 1);
}

#[test]
fn probe_key_layout() {
    // namespace tag, little-endian length, then the 64-byte synthetic id
    let key = probe_entry_key();
    assert_eq!(key.len(), 69);
    assert_eq!(key[0], StorageKey::TokensPerOwner.prefix());
    assert_eq!(&key[1..5], &64u32.to_le_bytes());
    assert_eq!(&key[5..], "a".repeat(64).as_bytes());
}

#[test]
fn storage_key_prefixes_are_distinct() {
    let keys = vec![
        StorageKey::TokensPerOwner,
        StorageKey::TokenPerOwnerInner { account_id_hash: vec![0u8; 32] },
        StorageKey::TokensPerCreator,
        StorageKey::TokenPerCreatorInner { account_id_hash: vec![0u8; 32] },
        StorageKey::TokensById,
        StorageKey::TokenMetadataById,
        StorageKey::NftMetadata,
        StorageKey::TokensPerType,
        StorageKey::TokensPerTypeInner { token_type_hash: vec![0u8; 32] },
        StorageKey::TokenTypesLocked,
        StorageKey::Profiles,
    ];
    let mut prefixes: Vec<u8> = keys.iter().map(|k| k.prefix()).collect();
    prefixes.sort();
    prefixes.dedup();
    assert_eq!(prefixes.len(), keys.len());
}
