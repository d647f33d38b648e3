use safe_harbor::address::chain_id_hash;
use safe_harbor::adopt::{Adopt, AdoptUpdateType};
use safe_harbor::errors::SafeHarborError;
use safe_harbor::types::{AccountInScope, ChildContractScope, Identity};

fn id(tag: u8) -> Identity {
    Identity::new([tag; 32])
}

fn eip_addr(fill: char) -> String {
    format!("0x{}", fill.to_string().repeat(40))
}

fn account(addr: &str) -> AccountInScope {
    AccountInScope {
        account_address: addr.to_string(),
        child_contract_scope: ChildContractScope::All,
    }
}

/// A freshly initialized adoption record on `eip155:1`.
fn initialized_record() -> Adopt {
    let mut record = Adopt::new();
    let chain = "eip155:1";
    let r = record.create_or_update_adoption(
        id(4),
        chain.to_string(),
        chain_id_hash(chain),
        AdoptUpdateType::InitializeOrUpdate,
        None,
        Some(eip_addr('a')),
        Some(vec![account(&eip_addr('b')), account(&eip_addr('c'))]),
        None,
    );
    assert_eq!(r, Ok(()));
    record
}

#[test]
fn test_adoption_initialize() {
    let record = initialized_record();
    assert_eq!(record.agreement, id(4));
    assert_eq!(record.caip2_chain_id, "eip155:1");
    assert_eq!(record.asset_recovery_address, eip_addr('a'));
    assert_eq!(record.accounts.len(), 2);
    assert!(record.allocated_space > 0);
}

#[test]
fn test_chain_id_hash_integrity() {
    // a claimed digest that disagrees with the recomputed one is rejected;
    // the correctly recomputed digest succeeds
    let chain = "solana:5eykt4UsFv8P8NJdTREpY1vzqKqZKvdp";
    let mut record = Adopt::new();
    let mut wrong = chain_id_hash(chain);
    wrong[0] ^= 0xff;
    let r = record.create_or_update_adoption(
        id(4),
        chain.to_string(),
        wrong,
        AdoptUpdateType::InitializeOrUpdate,
        None,
        Some("5eykt4UsFv8P8NJdTREpY1vzqKqZKvdp".to_string()),
        Some(vec![account("5eykt4UsFv8P8NJdTREpY1vzqKqZKvdp")]),
        None,
    );
    assert_eq!(r, Err(SafeHarborError::AddressHashMismatch));
    assert_eq!(record.agreement, Identity::default());

    let r2 = record.create_or_update_adoption(
        id(4),
        chain.to_string(),
        chain_id_hash(chain),
        AdoptUpdateType::InitializeOrUpdate,
        None,
        Some("5eykt4UsFv8P8NJdTREpY1vzqKqZKvdp".to_string()),
        Some(vec![account("5eykt4UsFv8P8NJdTREpY1vzqKqZKvdp")]),
        None,
    );
    assert_eq!(r2, Ok(()));
    assert_eq!(record.caip2_chain_id, chain);
}

#[test]
fn test_add_accounts_idempotent() {
    // adding the same address twice leaves exactly one entry for it
    let mut record = initialized_record();
    let chain = "eip155:1";
    let new_addr = format!("0x{}", "A".repeat(18));
    for _ in 0..2 {
        let r = record.create_or_update_adoption(
            id(4),
            chain.to_string(),
            chain_id_hash(chain),
            AdoptUpdateType::AddAccounts,
            None,
            None,
            Some(vec![account(&new_addr)]),
            None,
        );
        assert_eq!(r, Ok(()));
    }
    let hits = record
        .accounts
        .iter()
        .filter(|a| a.account_address == new_addr)
        .count();
    assert_eq!(hits, 1);
    assert_eq!(record.accounts.len(), 3);
}

#[test]
fn test_remove_accounts_absent_is_noop() {
    // removing an address that is not covered succeeds and changes nothing
    let mut record = initialized_record();
    let chain = "eip155:1";
    let before: Vec<String> = record.accounts.iter().map(|a| a.account_address.clone()).collect();
    let r = record.create_or_update_adoption(
        id(4),
        chain.to_string(),
        chain_id_hash(chain),
        AdoptUpdateType::RemoveAccounts,
        None,
        None,
        None,
        Some(vec![eip_addr('9')]),
    );
    assert_eq!(r, Ok(()));
    let after: Vec<String> = record.accounts.iter().map(|a| a.account_address.clone()).collect();
    assert_eq!(before, after);
}

#[test]
fn test_remove_accounts_drops_named() {
    let mut record = initialized_record();
    let chain = "eip155:1";
    let r = record.create_or_update_adoption(
        id(4),
        chain.to_string(),
        chain_id_hash(chain),
        AdoptUpdateType::RemoveAccounts,
        None,
        None,
        None,
        Some(vec![eip_addr('b')]),
    );
    assert_eq!(r, Ok(()));
    assert_eq!(record.accounts.len(), 1);
    assert_eq!(record.accounts[0].account_address, eip_addr('c'));
}

#[test]
fn test_replace_all() {
    let mut record = initialized_record();
    let chain = "eip155:1";
    let r = record.create_or_update_adoption(
        id(4),
        chain.to_string(),
        chain_id_hash(chain),
        AdoptUpdateType::ReplaceAll,
        Some(id(9)),
        Some(eip_addr('c')),
        Some(vec![account(&eip_addr('d'))]),
        None,
    );
    assert_eq!(r, Ok(()));
    assert_eq!(record.agreement, id(9));
    assert_eq!(record.asset_recovery_address, eip_addr('c'));
    assert_eq!(record.accounts[0].account_address, eip_addr('d'));
    // the record keeps its network
    assert_eq!(record.caip2_chain_id, chain);
}

#[test]
fn test_update_asset_recovery_address() {
    let mut record = initialized_record();
    let chain = "eip155:1";
    let r = record.create_or_update_adoption(
        id(4),
        chain.to_string(),
        chain_id_hash(chain),
        AdoptUpdateType::UpdateAssetRecoveryAddress,
        None,
        Some(eip_addr('e')),
        None,
        None,
    );
    assert_eq!(r, Ok(()));
    assert_eq!(record.asset_recovery_address, eip_addr('e'));
    // a malformed address for the record's network is rejected
    let r2 = record.create_or_update_adoption(
        id(4),
        chain.to_string(),
        chain_id_hash(chain),
        AdoptUpdateType::UpdateAssetRecoveryAddress,
        None,
        Some("short".to_string()),
        None,
        None,
    );
    assert_eq!(r2, Err(SafeHarborError::InvalidAccountParams));
    assert_eq!(record.asset_recovery_address, eip_addr('e'));
}

#[test]
fn test_update_agreement_reference() {
    let mut record = initialized_record();
    let chain = "eip155:1";
    let r = record.create_or_update_adoption(
        id(4),
        chain.to_string(),
        chain_id_hash(chain),
        AdoptUpdateType::UpdateAgreement,
        Some(id(8)),
        None,
        None,
        None,
    );
    assert_eq!(r, Ok(()));
    assert_eq!(record.agreement, id(8));
    let r2 = record.create_or_update_adoption(
        id(4),
        chain.to_string(),
        chain_id_hash(chain),
        AdoptUpdateType::UpdateAgreement,
        Some(Identity::default()),
        None,
        None,
        None,
    );
    assert_eq!(r2, Err(SafeHarborError::InvalidAccountParams));
    assert_eq!(record.agreement, id(8));
}

#[test]
fn test_missing_payload_is_invalid_update_type() {
    let mut record = initialized_record();
    let chain = "eip155:1";
    for (update_type, ag, rec, accts, del) in [
        (AdoptUpdateType::InitializeOrUpdate, None::<Identity>, None::<String>, None::<Vec<AccountInScope>>, None::<Vec<String>>),
        (AdoptUpdateType::ReplaceAll, Some(id(9)), Some(eip_addr('c')), None, None),
        (AdoptUpdateType::AddAccounts, None, None, None, None),
        (AdoptUpdateType::RemoveAccounts, None, None, None, None),
        (AdoptUpdateType::UpdateAssetRecoveryAddress, None, None, None, None),
        (AdoptUpdateType::UpdateAgreement, None, None, None, None),
    ] {
        let r = record.create_or_update_adoption(
            id(4),
            chain.to_string(),
            chain_id_hash(chain),
            update_type,
            ag,
            rec,
            accts,
            del,
        );
        assert_eq!(r, Err(SafeHarborError::InvalidUpdateType));
    }
}

#[test]
fn test_updates_require_initialized_record() {
    let mut record = Adopt::new();
    let chain = "eip155:1";
    let r = record.create_or_update_adoption(
        id(4),
        chain.to_string(),
        chain_id_hash(chain),
        AdoptUpdateType::AddAccounts,
        None,
        None,
        Some(vec![account(&eip_addr('b'))]),
        None,
    );
    assert_eq!(r, Err(SafeHarborError::AdoptionEntryNotFound));
}

#[test]
fn test_init_validation_rules() {
    let mut record = Adopt::new();
    let bad_chain = "nocolon";
    let r = record.create_or_update_adoption(
        id(4),
        bad_chain.to_string(),
        chain_id_hash(bad_chain),
        AdoptUpdateType::InitializeOrUpdate,
        None,
        Some("anything".to_string()),
        Some(vec![account("x")]),
        None,
    );
    assert_eq!(r, Err(SafeHarborError::InvalidNetworkId));

    let long_chain = format!("eip155:{}", "1".repeat(60));
    let r2 = record.create_or_update_adoption(
        id(4),
        long_chain.clone(),
        chain_id_hash(&long_chain),
        AdoptUpdateType::InitializeOrUpdate,
        None,
        Some(eip_addr('a')),
        Some(vec![account(&eip_addr('b'))]),
        None,
    );
    assert_eq!(r2, Err(SafeHarborError::FieldLengthExceeded));

    let chain = "eip155:1";
    let r3 = record.create_or_update_adoption(
        Identity::default(),
        chain.to_string(),
        chain_id_hash(chain),
        AdoptUpdateType::InitializeOrUpdate,
        None,
        Some(eip_addr('a')),
        Some(vec![account(&eip_addr('b'))]),
        None,
    );
    assert_eq!(r3, Err(SafeHarborError::InvalidAccountParams));

    let dup = vec![account(&eip_addr('b')), account(&eip_addr('b'))];
    let r4 = record.create_or_update_adoption(
        id(4),
        chain.to_string(),
        chain_id_hash(chain),
        AdoptUpdateType::InitializeOrUpdate,
        None,
        Some(eip_addr('a')),
        Some(dup),
        None,
    );
    assert_eq!(r4, Err(SafeHarborError::InvalidAccountParams));
    assert_eq!(record.agreement, Identity::default());
}

#[test]
fn test_add_accounts_capacity_limit() {
    // the allocation is sized at creation; growth beyond its headroom is
    // rejected with a capacity error and the record stays unchanged
    let mut record = Adopt::new();
    let chain = "eip155:1";
    record
        .create_or_update_adoption(
            id(4),
            chain.to_string(),
            chain_id_hash(chain),
            AdoptUpdateType::InitializeOrUpdate,
            None,
            Some(eip_addr('a')),
            Some(vec![account("0xsmall")]),
            None,
        )
        .unwrap();
    let before = record.accounts.len();
    let big = "B".repeat(64);
    let r = record.create_or_update_adoption(
        id(4),
        chain.to_string(),
        chain_id_hash(chain),
        AdoptUpdateType::AddAccounts,
        None,
        None,
        Some(vec![account(&big)]),
        None,
    );
    assert_eq!(r, Err(SafeHarborError::InsufficientCapacity));
    assert_eq!(record.accounts.len(), before);
}

#[test]
fn test_adoption_validators() {
    let blank = Adopt::new();
    assert_eq!(
        blank.validate_initialized(),
        Err(SafeHarborError::AdoptionEntryNotFound)
    );
    assert_eq!(
        blank.validate_agreement(),
        Err(SafeHarborError::InvalidAccountParams)
    );
    assert_eq!(
        blank.validate_can_update(&Identity::default()),
        Err(SafeHarborError::InvalidAccountParams)
    );
    assert_eq!(blank.validate_can_update(&id(4)), Ok(()));
    let record = initialized_record();
    assert_eq!(record.validate_initialized(), Ok(()));
    assert_eq!(record.validate_agreement(), Ok(()));
}

#[test]
fn test_adopt_update_type_codes() {
    assert!(matches!(
        AdoptUpdateType::from_code(0),
        Ok(AdoptUpdateType::InitializeOrUpdate)
    ));
    assert!(matches!(AdoptUpdateType::from_code(1), Ok(AdoptUpdateType::ReplaceAll)));
    assert!(matches!(AdoptUpdateType::from_code(2), Ok(AdoptUpdateType::AddAccounts)));
    assert!(matches!(
        AdoptUpdateType::from_code(3),
        Ok(AdoptUpdateType::RemoveAccounts)
    ));
    assert!(matches!(
        AdoptUpdateType::from_code(4),
        Ok(AdoptUpdateType::UpdateAssetRecoveryAddress)
    ));
    assert!(matches!(
        AdoptUpdateType::from_code(5),
        Ok(AdoptUpdateType::UpdateAgreement)
    ));
    assert_eq!(
        AdoptUpdateType::from_code(6),
        Err(SafeHarborError::InvalidUpdateType)
    );
}
