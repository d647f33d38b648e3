use safe_harbor::agreement::{AgreementData, AgreementUpdateType};
use safe_harbor::errors::SafeHarborError;
use safe_harbor::registry::Registry;
use safe_harbor::types::{
    AccountInScope, BountyTerms, ChildContractScope, Contact, Identity, IdentityRequirements,
};

fn id(tag: u8) -> Identity {
    Identity::new([tag; 32])
}

fn acme_data() -> AgreementData {
    AgreementData {
        owner: Identity::default(),
        protocol_name: "Acme".to_string(),
        contact_details: vec![Contact {
            name: "Security Team".to_string(),
            contact: "security@acme.example".to_string(),
        }],
        bounty_terms: BountyTerms {
            bounty_percentage: 10,
            bounty_cap_usd: 100_000,
            retainable: false,
            identity: IdentityRequirements::Anonymous,
            diligence_requirements: "Responsible disclosure required".to_string(),
            aggregate_bounty_cap_usd: 0,
        },
        agreement_uri: "ipfs://QmExampleAgreementDocumentCid".to_string(),
    }
}

#[test]
fn types_test_default_values() {
    let contact: Contact = Default::default();
    assert_eq!(contact.name, "");

    let bounty: BountyTerms = Default::default();
    assert_eq!(bounty.aggregate_bounty_cap_usd, 0);
}

#[test]
fn types_test_bounty_terms_validation() {
    let bounty = BountyTerms { bounty_percentage: 101, ..Default::default() };
    assert_eq!(bounty.bounty_percentage, 101);
}

#[test]
fn types_test_child_contract_scope() {
    let scope = ChildContractScope::ExistingOnly;

    let account = AccountInScope {
        account_address: "0x123".to_string(),
        child_contract_scope: scope,
    };

    let copy = account.clone();
    assert_eq!(copy.account_address, account.account_address);
    assert!(matches!(copy.child_contract_scope, ChildContractScope::ExistingOnly));
}

#[test]
fn test_update_type_codes() {
    assert!(matches!(
        AgreementUpdateType::from_code(0),
        Ok(AgreementUpdateType::InitializeOrUpdate)
    ));
    assert!(matches!(
        AgreementUpdateType::from_code(1),
        Ok(AgreementUpdateType::ProtocolName)
    ));
    assert!(matches!(
        AgreementUpdateType::from_code(2),
        Ok(AgreementUpdateType::ContactDetails)
    ));
    assert!(matches!(
        AgreementUpdateType::from_code(3),
        Ok(AgreementUpdateType::BountyTerms)
    ));
    assert!(matches!(
        AgreementUpdateType::from_code(4),
        Ok(AgreementUpdateType::AgreementUri)
    ));
    assert_eq!(
        AgreementUpdateType::from_code(5),
        Err(SafeHarborError::InvalidUpdateType)
    );
}

#[test]
fn test_end_to_end_initialize_agreement() {
    // the flow of one protocol joining: recognize a network, then create
    // the agreement record with full validation
    let mut registry = Registry::new();
    let authority = id(1);
    registry
        .initialize(authority, &vec!["eip155:1".to_string()])
        .unwrap();

    let owner = id(7);
    let mut record = AgreementData::new();
    let r = record.create_or_update_agreement(
        acme_data(),
        owner,
        AgreementUpdateType::InitializeOrUpdate,
    );
    assert_eq!(r, Ok(()));
    assert_eq!(record.owner, owner);
    assert_eq!(record.protocol_name, "Acme");
    assert_eq!(record.bounty_terms.bounty_percentage, 10);
}

#[test]
fn test_rejected_update_leaves_record_unchanged() {
    // an out-of-range bounty percentage aborts the update and the stored
    // terms stay as they were
    let owner = id(7);
    let mut record = AgreementData::new();
    record
        .create_or_update_agreement(acme_data(), owner, AgreementUpdateType::InitializeOrUpdate)
        .unwrap();

    let mut bad = acme_data();
    bad.bounty_terms.bounty_percentage = 150;
    let r = record.create_or_update_agreement(bad, owner, AgreementUpdateType::BountyTerms);
    assert_eq!(r, Err(SafeHarborError::InvalidBountyPercentage));
    assert_eq!(record.bounty_terms.bounty_percentage, 10);
    assert_eq!(record.owner, owner);
}

#[test]
fn test_partial_updates_touch_only_named_fields() {
    let owner = id(7);
    let mut record = AgreementData::new();
    record
        .create_or_update_agreement(acme_data(), owner, AgreementUpdateType::InitializeOrUpdate)
        .unwrap();

    let mut patch = acme_data();
    patch.protocol_name = "Acme Rebrand".to_string();
    patch.agreement_uri = "https://other.example".to_string();
    let r = record.create_or_update_agreement(patch, id(9), AgreementUpdateType::ProtocolName);
    assert_eq!(r, Ok(()));
    assert_eq!(record.protocol_name, "Acme Rebrand");
    // the uri arm was not named, and a partial update never moves ownership
    assert_eq!(record.agreement_uri, "ipfs://QmExampleAgreementDocumentCid");
    assert_eq!(record.owner, owner);

    let mut patch2 = acme_data();
    patch2.agreement_uri = "ar://SomeTx".to_string();
    record
        .create_or_update_agreement(patch2, owner, AgreementUpdateType::AgreementUri)
        .unwrap();
    assert_eq!(record.agreement_uri, "ar://SomeTx");

    let mut patch3 = acme_data();
    patch3.contact_details = vec![Contact {
        name: "Legal".to_string(),
        contact: "legal@acme.example".to_string(),
    }];
    record
        .create_or_update_agreement(patch3, owner, AgreementUpdateType::ContactDetails)
        .unwrap();
    assert_eq!(record.contact_details.len(), 1);
    assert_eq!(record.contact_details[0].name, "Legal");
}

#[test]
fn test_initialize_or_update_validates_everything() {
    let mut record = AgreementData::new();
    let mut bad = acme_data();
    bad.protocol_name = "   ".to_string();
    assert_eq!(
        record.create_or_update_agreement(bad, id(7), AgreementUpdateType::InitializeOrUpdate),
        Err(SafeHarborError::InvalidProtocolName)
    );
    let mut bad2 = acme_data();
    bad2.contact_details = Vec::new();
    assert_eq!(
        record.create_or_update_agreement(bad2, id(7), AgreementUpdateType::InitializeOrUpdate),
        Err(SafeHarborError::InvalidContactDetails)
    );
    let mut bad3 = acme_data();
    bad3.agreement_uri = "ftp://nope".to_string();
    assert_eq!(
        record.create_or_update_agreement(bad3, id(7), AgreementUpdateType::InitializeOrUpdate),
        Err(SafeHarborError::InvalidAgreementUri)
    );
    let mut bad4 = acme_data();
    bad4.bounty_terms.bounty_cap_usd = 0;
    assert_eq!(
        record.create_or_update_agreement(bad4, id(7), AgreementUpdateType::InitializeOrUpdate),
        Err(SafeHarborError::InvalidBountyCap)
    );
    // nothing was written along the way
    assert_eq!(record.owner, Identity::default());
    assert_eq!(record.protocol_name, "");
}

#[test]
fn test_agreement_validator_methods() {
    let record = AgreementData {
        owner: id(7),
        ..acme_data()
    };
    assert_eq!(record.validate_protocol_name(), Ok(()));
    assert_eq!(record.validate_contact_details(), Ok(()));
    assert_eq!(record.validate_bounty_terms_data(), Ok(()));
    assert_eq!(record.validate_agreement_uri(), Ok(()));
    assert_eq!(record.validate_agreement_data(), Ok(()));

    let blank = AgreementData::new();
    assert_eq!(
        blank.validate_protocol_name(),
        Err(SafeHarborError::InvalidProtocolName)
    );
    assert_eq!(
        blank.validate_agreement_data(),
        Err(SafeHarborError::InvalidProtocolName)
    );
}
