use safe_harbor::errors::SafeHarborError;
use safe_harbor::registry::{Registry, MAX_AGREEMENT_ENTRIES, MAX_RECOGNIZED_NETWORKS};
use safe_harbor::types::{AccountInScope, Chain, ChildContractScope, Identity};

fn id(tag: u8) -> Identity {
    Identity::new([tag; 32])
}

fn strings(items: &[&str]) -> Vec<String> {
    items.iter().map(|s| s.to_string()).collect()
}

#[test]
fn test_registry_default() {
    let registry = Registry::default();
    assert!(!registry.initialized);
    assert_eq!(registry.owner, Identity::default());
    assert!(registry.valid_chains.is_empty());
}

#[test]
fn test_validate_chain_id() {
    let mut registry = Registry::default();
    registry.add_valid_chains(&strings(&["eip155:1"])).unwrap();
    assert!(registry.validate_chain_id("").is_err());
    assert!(registry.validate_chain_id("eip155:1").is_ok());
    assert_eq!(
        registry.validate_chain_id("eip155:2"),
        Err(SafeHarborError::NetworkNotRecognized)
    );
    assert_eq!(
        registry.validate_chain_id(""),
        Err(SafeHarborError::InvalidNetworkId)
    );
}

#[test]
fn test_add_valid_chains() {
    let mut registry = Registry::default();
    registry.add_valid_chains(&strings(&["eip155:1"])).unwrap();
    assert!(registry.is_chain_valid("eip155:1"));
    registry.remove_invalid_chains(&strings(&["eip155:1"])).unwrap();
    assert!(!registry.is_chain_valid("eip155:1"));
}

#[test]
fn test_initialize_rules() {
    let mut registry = Registry::new();
    let owner = id(1);
    assert_eq!(
        registry.initialize(owner, &Vec::new()),
        Err(SafeHarborError::InvalidNetworkId)
    );
    assert!(!registry.initialized);
    assert_eq!(registry.initialize(owner, &strings(&["eip155:1"])), Ok(()));
    assert!(registry.initialized);
    assert_eq!(registry.owner, owner);
    assert!(registry.is_chain_valid("eip155:1"));
    assert_eq!(
        registry.initialize(owner, &strings(&["eip155:2"])),
        Err(SafeHarborError::RegistryAlreadyInitialized)
    );
    assert!(!registry.is_chain_valid("eip155:2"));
}

#[test]
fn test_initialize_rejects_overlong_id() {
    let mut registry = Registry::new();
    let long = "x".repeat(65);
    assert_eq!(
        registry.initialize(id(1), &vec![long]),
        Err(SafeHarborError::InvalidNetworkId)
    );
    assert!(!registry.initialized);
}

#[test]
fn test_add_recognized_idempotent() {
    // adding the same identifier twice leaves exactly one entry
    let mut registry = Registry::new();
    registry.initialize(id(1), &strings(&["eip155:1"])).unwrap();
    let owner = id(1);
    registry.set_valid_chains(&owner, &strings(&["eip155:1"])).unwrap();
    registry.set_valid_chains(&owner, &strings(&["eip155:1"])).unwrap();
    let count = registry
        .valid_chains
        .iter()
        .filter(|s| s.as_str() == "eip155:1")
        .count();
    assert_eq!(count, 1);
    assert_eq!(registry.valid_chains.len(), 1);
}

#[test]
fn test_owner_gating() {
    let mut registry = Registry::new();
    let owner = id(1);
    let stranger = id(2);
    assert_eq!(
        registry.validate_owner(&owner),
        Err(SafeHarborError::RegistryNotInitialized)
    );
    assert_eq!(
        registry.set_valid_chains(&owner, &strings(&["eip155:1"])),
        Err(SafeHarborError::RegistryNotInitialized)
    );
    registry.initialize(owner, &strings(&["eip155:1"])).unwrap();
    assert_eq!(registry.validate_owner(&owner), Ok(()));
    assert_eq!(
        registry.validate_owner(&stranger),
        Err(SafeHarborError::NotRegistryOwner)
    );
    assert_eq!(
        registry.set_valid_chains(&stranger, &strings(&["eip155:5"])),
        Err(SafeHarborError::NotRegistryOwner)
    );
    assert!(!registry.is_chain_valid("eip155:5"));
    assert_eq!(
        registry.set_invalid_chains(&stranger, &strings(&["eip155:1"])),
        Err(SafeHarborError::NotRegistryOwner)
    );
    assert!(registry.is_chain_valid("eip155:1"));
    assert_eq!(registry.set_invalid_chains(&owner, &strings(&["eip155:1"])), Ok(()));
    assert!(!registry.is_chain_valid("eip155:1"));
}

#[test]
fn test_recognized_set_capacity() {
    let mut registry = Registry::new();
    let ids: Vec<String> = (0..MAX_RECOGNIZED_NETWORKS).map(|i| format!("eip155:{i}")).collect();
    registry.initialize(id(1), &ids).unwrap();
    assert_eq!(registry.valid_chains.len(), MAX_RECOGNIZED_NETWORKS);
    let owner = id(1);
    assert_eq!(
        registry.set_valid_chains(&owner, &strings(&["eip155:9999"])),
        Err(SafeHarborError::FieldLengthExceeded)
    );
    // re-adding a known identifier is a no-op, not an overflow
    assert_eq!(registry.set_valid_chains(&owner, &strings(&["eip155:0"])), Ok(()));
    assert_eq!(registry.valid_chains.len(), MAX_RECOGNIZED_NETWORKS);
}

#[test]
fn test_agreement_index() {
    let mut registry = Registry::new();
    let adopter = id(3);
    let agreement_a = id(4);
    let agreement_b = id(5);
    assert_eq!(registry.get_agreement(adopter), None);
    assert!(!registry.remove_agreement(adopter));
    assert_eq!(registry.set_agreement(adopter, agreement_a), Ok(()));
    assert_eq!(registry.get_agreement(adopter), Some(agreement_a));
    assert_eq!(registry.set_agreement(adopter, agreement_b), Ok(()));
    assert_eq!(registry.get_agreement(adopter), Some(agreement_b));
    assert_eq!(registry.agreements.len(), 1);
    assert!(registry.remove_agreement(adopter));
    assert_eq!(registry.get_agreement(adopter), None);
}

#[test]
fn test_agreement_index_capacity() {
    let mut registry = Registry::new();
    for i in 0..MAX_AGREEMENT_ENTRIES {
        let mut bytes = [0u8; 32];
        bytes[0] = (i % 256) as u8;
        bytes[1] = (i / 256) as u8;
        bytes[2] = 7;
        assert_eq!(registry.set_agreement(Identity::new(bytes), id(9)), Ok(()));
    }
    assert_eq!(
        registry.set_agreement(id(8), id(9)),
        Err(SafeHarborError::FieldLengthExceeded)
    );
    // overwriting an existing adopter still works at capacity
    let mut bytes = [0u8; 32];
    bytes[2] = 7;
    assert_eq!(registry.set_agreement(Identity::new(bytes), id(6)), Ok(()));
}

#[test]
fn test_record_adoption() {
    let mut registry = Registry::new();
    let adopter = id(3);
    assert_eq!(
        registry.record_adoption(adopter, Identity::default()),
        Err(SafeHarborError::InvalidAccountParams)
    );
    let first = registry.record_adoption(adopter, id(4)).unwrap();
    assert_eq!(first, Identity::default());
    let second = registry.record_adoption(adopter, id(5)).unwrap();
    assert_eq!(second, id(4));
    assert_eq!(registry.get_agreement(adopter), Some(id(5)));
}

#[test]
fn test_validate_network_scope() {
    let mut registry = Registry::new();
    registry.initialize(id(1), &strings(&["eip155:1"])).unwrap();
    let entry = |chain: &str| Chain {
        caip2_chain_id: chain.to_string(),
        asset_recovery_address: format!("0x{}", "a".repeat(40)),
        accounts: vec![AccountInScope {
            account_address: format!("0x{}", "b".repeat(40)),
            child_contract_scope: ChildContractScope::All,
        }],
    };
    assert_eq!(registry.validate_network_scope(&vec![entry("eip155:1")]), Ok(()));
    assert_eq!(
        registry.validate_network_scope(&vec![entry("eip155:1"), entry("eip155:2")]),
        Err(SafeHarborError::NetworkNotRecognized)
    );
    let none: Vec<Chain> = Vec::new();
    assert_eq!(registry.validate_network_scope(&none), Ok(()));
}
