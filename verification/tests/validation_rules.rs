use safe_harbor::errors::SafeHarborError;
use safe_harbor::types::{AccountInScope, BountyTerms, Chain, ChildContractScope, Contact};
use safe_harbor::validation::{
    validate_account_address, validate_accounts, validate_agreement_uri, validate_bounty_terms,
    validate_caip2_chain_id, validate_chains, validate_contact_details, validate_protocol_name,
};

fn valid_bounty() -> BountyTerms {
    BountyTerms {
        bounty_percentage: 10,
        bounty_cap_usd: 100_000,
        retainable: false,
        identity: Default::default(),
        diligence_requirements: String::new(),
        aggregate_bounty_cap_usd: 0,
    }
}

#[test]
fn test_bounty_percentage_bounds() {
    for p in [0u64, 1, 50, 100] {
        let t = BountyTerms { bounty_percentage: p, ..valid_bounty() };
        assert_eq!(validate_bounty_terms(&t), Ok(()));
    }
    let t = BountyTerms { bounty_percentage: 101, ..valid_bounty() };
    assert_eq!(
        validate_bounty_terms(&t),
        Err(SafeHarborError::InvalidBountyPercentage)
    );
}

#[test]
fn test_retainable_aggregate_conflict() {
    // a nonzero aggregate cap plus the retainable flag is rejected,
    // whatever the other fields hold
    let t = BountyTerms {
        retainable: true,
        aggregate_bounty_cap_usd: 500_000,
        ..valid_bounty()
    };
    assert_eq!(
        validate_bounty_terms(&t),
        Err(SafeHarborError::ConflictingRetainableAndAggregateCap)
    );
    let t2 = BountyTerms {
        bounty_cap_usd: 0,
        retainable: true,
        aggregate_bounty_cap_usd: 500_000,
        ..valid_bounty()
    };
    assert!(validate_bounty_terms(&t2).is_err());
    let t3 = BountyTerms {
        bounty_percentage: 200,
        retainable: true,
        aggregate_bounty_cap_usd: 500_000,
        ..valid_bounty()
    };
    assert!(validate_bounty_terms(&t3).is_err());
}

#[test]
fn test_bounty_cap_rules() {
    let t = BountyTerms { bounty_cap_usd: 0, ..valid_bounty() };
    assert_eq!(validate_bounty_terms(&t), Err(SafeHarborError::InvalidBountyCap));
    let t2 = BountyTerms {
        bounty_cap_usd: 100_000,
        aggregate_bounty_cap_usd: 50_000,
        ..valid_bounty()
    };
    assert_eq!(
        validate_bounty_terms(&t2),
        Err(SafeHarborError::InvalidAggregateBountyCap)
    );
    let t3 = BountyTerms {
        bounty_cap_usd: 100_000,
        aggregate_bounty_cap_usd: 100_000,
        ..valid_bounty()
    };
    assert_eq!(validate_bounty_terms(&t3), Ok(()));
}

#[test]
fn test_protocol_name_rules() {
    assert_eq!(
        validate_protocol_name(""),
        Err(SafeHarborError::InvalidProtocolName)
    );
    assert_eq!(
        validate_protocol_name("   "),
        Err(SafeHarborError::InvalidProtocolName)
    );
    assert_eq!(validate_protocol_name("Acme"), Ok(()));
    let long = "a".repeat(101);
    assert_eq!(
        validate_protocol_name(&long),
        Err(SafeHarborError::InvalidProtocolName)
    );
    let exactly = "a".repeat(100);
    assert_eq!(validate_protocol_name(&exactly), Ok(()));
}

#[test]
fn test_caip2_shapes() {
    assert_eq!(validate_caip2_chain_id("eip155:1"), Ok(()));
    assert_eq!(validate_caip2_chain_id("cosmos:cosmoshub-4"), Ok(()));
    assert_eq!(
        validate_caip2_chain_id("solana:5eykt4UsFv8P8NJdTREpY1vzqKqZKvdp"),
        Ok(())
    );
    for bad in ["", "eip155", ":1", "eip155:", "a:b:c", "eip155:x", "eip155:1x"] {
        assert_eq!(
            validate_caip2_chain_id(bad),
            Err(SafeHarborError::InvalidNetworkId),
            "{bad}"
        );
    }
}

#[test]
fn test_caip2_numeric_references() {
    // the reference of an eip155 identifier is read like Rust's unsigned
    // decimal parser: leading zeros and a single plus sign are accepted,
    // and the value must fit in 64 bits
    assert_eq!(validate_caip2_chain_id("eip155:007"), Ok(()));
    assert_eq!(validate_caip2_chain_id("eip155:+5"), Ok(()));
    assert_eq!(
        validate_caip2_chain_id("eip155:18446744073709551615"),
        Ok(())
    );
    assert_eq!(
        validate_caip2_chain_id("eip155:18446744073709551616"),
        Err(SafeHarborError::InvalidNetworkId)
    );
    assert_eq!(
        validate_caip2_chain_id("eip155:+"),
        Err(SafeHarborError::InvalidNetworkId)
    );
    assert_eq!(
        validate_caip2_chain_id("eip155:++5"),
        Err(SafeHarborError::InvalidNetworkId)
    );
}

#[test]
fn test_account_address_eip155() {
    let good = format!("0x{}", "aB3f".repeat(10));
    assert_eq!(validate_account_address(&good, "eip155:1"), Ok(()));
    for bad in [
        "".to_string(),
        "0x123".to_string(),
        format!("0x{}", "g".repeat(40)),
        format!("1x{}", "a".repeat(40)),
        format!("0x{}", "a".repeat(41)),
    ] {
        assert_eq!(
            validate_account_address(&bad, "eip155:1"),
            Err(SafeHarborError::InvalidAccountParams),
            "{bad}"
        );
    }
}

#[test]
fn test_account_address_solana() {
    let good = "5eykt4UsFv8P8NJdTREpY1vzqKqZKvdp";
    assert_eq!(validate_account_address(good, "solana:mainnet"), Ok(()));
    // too short, too long, and excluded base-58 characters
    assert_eq!(
        validate_account_address("abc", "solana:mainnet"),
        Err(SafeHarborError::InvalidAccountParams)
    );
    let long = "a".repeat(45);
    assert_eq!(
        validate_account_address(&long, "solana:mainnet"),
        Err(SafeHarborError::InvalidAccountParams)
    );
    let zero = format!("0{}", "a".repeat(31));
    assert_eq!(
        validate_account_address(&zero, "solana:mainnet"),
        Err(SafeHarborError::InvalidAccountParams)
    );
    let ell = format!("l{}", "a".repeat(31));
    assert_eq!(
        validate_account_address(&ell, "solana:mainnet"),
        Err(SafeHarborError::InvalidAccountParams)
    );
}

#[test]
fn test_account_address_unknown_namespace() {
    // unrecognized namespaces only require a non-empty address
    assert_eq!(validate_account_address("anything-goes", "cosmos:hub"), Ok(()));
    assert_eq!(
        validate_account_address("", "cosmos:hub"),
        Err(SafeHarborError::InvalidAccountParams)
    );
}

#[test]
fn test_contact_details_rules() {
    let ok = vec![Contact { name: "Security Team".to_string(), contact: "sec@acme.io".to_string() }];
    assert_eq!(validate_contact_details(&ok), Ok(()));
    let empty: Vec<Contact> = Vec::new();
    assert_eq!(
        validate_contact_details(&empty),
        Err(SafeHarborError::InvalidContactDetails)
    );
    let many: Vec<Contact> = (0..11)
        .map(|i| Contact { name: format!("c{i}"), contact: "x".to_string() })
        .collect();
    assert_eq!(
        validate_contact_details(&many),
        Err(SafeHarborError::InvalidContactDetails)
    );
    let blank_name = vec![Contact { name: "  ".to_string(), contact: "x".to_string() }];
    assert_eq!(
        validate_contact_details(&blank_name),
        Err(SafeHarborError::InvalidContactDetails)
    );
    let long_name = vec![Contact { name: "n".repeat(51), contact: "x".to_string() }];
    assert_eq!(
        validate_contact_details(&long_name),
        Err(SafeHarborError::InvalidContactDetails)
    );
    let long_contact = vec![Contact { name: "n".to_string(), contact: "x".repeat(101) }];
    assert_eq!(
        validate_contact_details(&long_contact),
        Err(SafeHarborError::InvalidContactDetails)
    );
}

#[test]
fn test_agreement_uri_rules() {
    assert_eq!(validate_agreement_uri(""), Ok(()));
    assert_eq!(validate_agreement_uri("ipfs://QmAbc"), Ok(()));
    assert_eq!(validate_agreement_uri("https://acme.io/terms"), Ok(()));
    assert_eq!(validate_agreement_uri("http://acme.io/terms"), Ok(()));
    assert_eq!(validate_agreement_uri("ar://tx"), Ok(()));
    assert_eq!(
        validate_agreement_uri("ftp://acme.io"),
        Err(SafeHarborError::InvalidAgreementUri)
    );
    let long = format!("ipfs://{}", "Q".repeat(200));
    assert_eq!(
        validate_agreement_uri(&long),
        Err(SafeHarborError::InvalidAgreementUri)
    );
}

fn eip_addr(fill: char) -> String {
    format!("0x{}", fill.to_string().repeat(40))
}

fn scope_entry(chain: &str, addr_fill: char) -> Chain {
    Chain {
        caip2_chain_id: chain.to_string(),
        asset_recovery_address: eip_addr(addr_fill),
        accounts: vec![AccountInScope {
            account_address: eip_addr('b'),
            child_contract_scope: ChildContractScope::All,
        }],
    }
}

#[test]
fn test_validate_chains_rules() {
    let ok = vec![scope_entry("eip155:1", 'a'), scope_entry("eip155:10", 'c')];
    assert_eq!(validate_chains(&ok), Ok(()));
    let empty: Vec<Chain> = Vec::new();
    assert_eq!(validate_chains(&empty), Err(SafeHarborError::InvalidNetworkId));
    let dup = vec![scope_entry("eip155:1", 'a'), scope_entry("eip155:1", 'c')];
    assert_eq!(validate_chains(&dup), Err(SafeHarborError::DuplicateNetworkId));
    let bad_id = vec![scope_entry("nocolon", 'a')];
    assert_eq!(validate_chains(&bad_id), Err(SafeHarborError::InvalidNetworkId));
    let mut bad_recovery = scope_entry("eip155:1", 'a');
    bad_recovery.asset_recovery_address = "short".to_string();
    assert_eq!(
        validate_chains(&vec![bad_recovery]),
        Err(SafeHarborError::InvalidAccountParams)
    );
    let too_many: Vec<Chain> = (0..51).map(|i| scope_entry(&format!("eip155:{i}"), 'a')).collect();
    assert_eq!(
        validate_chains(&too_many),
        Err(SafeHarborError::FieldLengthExceeded)
    );
}

#[test]
fn test_validate_accounts_rules() {
    let a = AccountInScope {
        account_address: eip_addr('a'),
        child_contract_scope: ChildContractScope::NoChildren,
    };
    let b = AccountInScope {
        account_address: eip_addr('b'),
        child_contract_scope: ChildContractScope::FutureOnly,
    };
    assert_eq!(validate_accounts(&vec![a.clone(), b.clone()], "eip155:1"), Ok(()));
    let empty: Vec<AccountInScope> = Vec::new();
    assert_eq!(
        validate_accounts(&empty, "eip155:1"),
        Err(SafeHarborError::InvalidAccountParams)
    );
    assert_eq!(
        validate_accounts(&vec![a.clone(), a.clone()], "eip155:1"),
        Err(SafeHarborError::InvalidAccountParams)
    );
    let bad = AccountInScope {
        account_address: "nope".to_string(),
        child_contract_scope: ChildContractScope::ExistingOnly,
    };
    assert_eq!(
        validate_accounts(&vec![bad], "eip155:1"),
        Err(SafeHarborError::InvalidAccountParams)
    );
}
