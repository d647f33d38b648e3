//! The agreement record and its partial-update dispatcher.
//!
//! An update call names which subset of fields it replaces; the payload is
//! validated against exactly the rules of the named subset, and either every
//! named field is written or, on any validation failure, none is.
//!
//! Authorization is the host's: it hands a mutable reference to a record
//! only to a caller it has verified against the record's derivation seeds,
//! so the dispatcher itself carries no caller check.

use vstd::prelude::*;

use crate::errors::SafeHarborError;
use crate::types::{BountyTerms, Contact, Identity};
use crate::validation::{
    check_bounty_terms, valid_agreement_uri, valid_contact_details, valid_protocol_name,
    validate_agreement_uri, validate_bounty_terms, validate_contact_details,
    validate_protocol_name,
};

verus! {

/// Which subset of an agreement's fields one update call replaces.
#[derive(Clone, Copy, Debug, PartialEq, Eq, Structural)]
pub enum AgreementUpdateType {
    /// Replace every mutable field and set the owner.
    InitializeOrUpdate,
    /// Replace the protocol name only.
    ProtocolName,
    /// Replace the contact list only.
    ContactDetails,
    /// Replace the bounty terms only.
    BountyTerms,
    /// Replace the agreement URI only.
    AgreementUri,
}

impl AgreementUpdateType {
    /// Decode the wire code of an update kind. Codes 0 through 4 are the
    /// kinds in declaration order; anything else is rejected.
    pub fn from_code(code: u8) -> (r: Result<AgreementUpdateType, SafeHarborError>)
        ensures
            r == match code {
                0u8 => Ok::<AgreementUpdateType, SafeHarborError>(
                    AgreementUpdateType::InitializeOrUpdate,
                ),
                1u8 => Ok::<AgreementUpdateType, SafeHarborError>(AgreementUpdateType::ProtocolName),
                2u8 => Ok::<AgreementUpdateType, SafeHarborError>(
                    AgreementUpdateType::ContactDetails,
                ),
                3u8 => Ok::<AgreementUpdateType, SafeHarborError>(AgreementUpdateType::BountyTerms),
                4u8 => Ok::<AgreementUpdateType, SafeHarborError>(AgreementUpdateType::AgreementUri),
                _ => Err::<AgreementUpdateType, SafeHarborError>(
                    SafeHarborError::InvalidUpdateType,
                ),
            },
    {
        match code {
            0 => Ok(AgreementUpdateType::InitializeOrUpdate),
            1 => Ok(AgreementUpdateType::ProtocolName),
            2 => Ok(AgreementUpdateType::ContactDetails),
            3 => Ok(AgreementUpdateType::BountyTerms),
            4 => Ok(AgreementUpdateType::AgreementUri),
            _ => Err(SafeHarborError::InvalidUpdateType),
        }
    }
}

/// One protocol's disclosure agreement.
#[derive(Clone, Debug)]
pub struct AgreementData {
    /// The account authorized to mutate this record.
    pub owner: Identity,
    /// The protocol's name.
    pub protocol_name: String,
    /// Contact points for security disclosures.
    pub contact_details: Vec<Contact>,
    /// Reward terms for researchers.
    pub bounty_terms: BountyTerms,
    /// URI of the full legal agreement document.
    pub agreement_uri: String,
}

/// The exact outcome of the full validation of prospective agreement data,
/// first failed rule first: protocol name, bounty terms, contact details,
/// agreement URI.
pub open spec fn check_agreement_data(d: AgreementData) -> Result<(), SafeHarborError> {
    if !valid_protocol_name(d.protocol_name@) {
        Err(SafeHarborError::InvalidProtocolName)
    } else if check_bounty_terms(d.bounty_terms) is Err {
        check_bounty_terms(d.bounty_terms)
    } else if !valid_contact_details(d.contact_details@) {
        Err(SafeHarborError::InvalidContactDetails)
    } else if !valid_agreement_uri(d.agreement_uri@) {
        Err(SafeHarborError::InvalidAgreementUri)
    } else {
        Ok(())
    }
}

/// The record an update call leaves behind, or the error that aborts it.
/// Each update kind validates exactly the fields it replaces;
/// `InitializeOrUpdate` validates everything and also sets the owner.
pub open spec fn agreement_update_result(
    prior: AgreementData,
    data: AgreementData,
    owner: Identity,
    update_type: AgreementUpdateType,
) -> Result<AgreementData, SafeHarborError> {
    match update_type {
        AgreementUpdateType::ProtocolName => {
            if valid_protocol_name(data.protocol_name@) {
                Ok(
                    AgreementData {
                        owner: prior.owner,
                        protocol_name: data.protocol_name,
                        contact_details: prior.contact_details,
                        bounty_terms: prior.bounty_terms,
                        agreement_uri: prior.agreement_uri,
                    },
                )
            } else {
                Err(SafeHarborError::InvalidProtocolName)
            }
        },
        AgreementUpdateType::ContactDetails => {
            if valid_contact_details(data.contact_details@) {
                Ok(
                    AgreementData {
                        owner: prior.owner,
                        protocol_name: prior.protocol_name,
                        contact_details: data.contact_details,
                        bounty_terms: prior.bounty_terms,
                        agreement_uri: prior.agreement_uri,
                    },
                )
            } else {
                Err(SafeHarborError::InvalidContactDetails)
            }
        },
        AgreementUpdateType::BountyTerms => {
            match check_bounty_terms(data.bounty_terms) {
                Ok(_) => Ok(
                    AgreementData {
                        owner: prior.owner,
                        protocol_name: prior.protocol_name,
                        contact_details: prior.contact_details,
                        bounty_terms: data.bounty_terms,
                        agreement_uri: prior.agreement_uri,
                    },
                ),
                Err(e) => Err(e),
            }
        },
        AgreementUpdateType::AgreementUri => {
            if valid_agreement_uri(data.agreement_uri@) {
                Ok(
                    AgreementData {
                        owner: prior.owner,
                        protocol_name: prior.protocol_name,
                        contact_details: prior.contact_details,
                        bounty_terms: prior.bounty_terms,
                        agreement_uri: data.agreement_uri,
                    },
                )
            } else {
                Err(SafeHarborError::InvalidAgreementUri)
            }
        },
        AgreementUpdateType::InitializeOrUpdate => {
            match check_agreement_data(data) {
                Ok(_) => Ok(
                    AgreementData {
                        owner: owner,
                        protocol_name: data.protocol_name,
                        contact_details: data.contact_details,
                        bounty_terms: data.bounty_terms,
                        agreement_uri: data.agreement_uri,
                    },
                ),
                Err(e) => Err(e),
            }
        },
    }
}

impl AgreementData {
    /// A blank record, as the host leaves a never-written slot.
    pub fn new() -> (r: AgreementData)
        ensures
            r.owner@ == Identity::default_spec(),
            r.protocol_name@.len() == 0,
            r.contact_details@.len() == 0,
            r.agreement_uri@.len() == 0,
    {
        AgreementData {
            owner: Identity::zero(),
            protocol_name: String::new(),
            contact_details: Vec::new(),
            bounty_terms: BountyTerms::default(),
            agreement_uri: String::new(),
        }
    }

    /// Checks this record's protocol name.
    pub fn validate_protocol_name(&self) -> (r: Result<(), SafeHarborError>)
        ensures
            r is Ok <==> valid_protocol_name(self.protocol_name@),
            r is Err ==> r == Err::<(), SafeHarborError>(SafeHarborError::InvalidProtocolName),
    {
        validate_protocol_name(self.protocol_name.as_str())
    }

    /// Checks this record's contact list.
    pub fn validate_contact_details(&self) -> (r: Result<(), SafeHarborError>)
        ensures
            r is Ok <==> valid_contact_details(self.contact_details@),
            r is Err ==> r == Err::<(), SafeHarborError>(SafeHarborError::InvalidContactDetails),
    {
        validate_contact_details(&self.contact_details)
    }

    /// Checks this record's bounty terms.
    pub fn validate_bounty_terms_data(&self) -> (r: Result<(), SafeHarborError>)
        ensures
            r == check_bounty_terms(self.bounty_terms),
    {
        validate_bounty_terms(&self.bounty_terms)
    }

    /// Checks this record's agreement URI.
    pub fn validate_agreement_uri(&self) -> (r: Result<(), SafeHarborError>)
        ensures
            r is Ok <==> valid_agreement_uri(self.agreement_uri@),
            r is Err ==> r == Err::<(), SafeHarborError>(SafeHarborError::InvalidAgreementUri),
    {
        validate_agreement_uri(self.agreement_uri.as_str())
    }

    /// Checks every rule on this record's data.
    pub fn validate_agreement_data(&self) -> (r: Result<(), SafeHarborError>)
        ensures
            r == check_agreement_data(*self),
    {
        if let Err(e) = self.validate_protocol_name() {
            return Err(e);
        }
        if let Err(e) = self.validate_bounty_terms_data() {
            return Err(e);
        }
        if let Err(e) = self.validate_contact_details() {
            return Err(e);
        }
        if let Err(e) = self.validate_agreement_uri() {
            return Err(e);
        }
        Ok(())
    }

    /// Apply one update call to this record: validate the fields the update
    /// kind names against the prospective `data`, then replace exactly those
    /// fields. On any validation failure the record is left untouched and
    /// the failed rule's error is surfaced. `InitializeOrUpdate` also sets
    /// the owner to `owner`.
    pub fn create_or_update_agreement(
        &mut self,
        data: AgreementData,
        owner: Identity,
        update_type: AgreementUpdateType,
    ) -> (r: Result<(), SafeHarborError>)
        ensures
            match agreement_update_result(*old(self), data, owner, update_type) {
                Ok(next) => r is Ok && *final(self) == next,
                Err(e) => r == Err::<(), SafeHarborError>(e) && *final(self) == *old(self),
            },
    {
        match update_type {
            AgreementUpdateType::ProtocolName => {
                if let Err(e) = validate_protocol_name(data.protocol_name.as_str()) {
                    return Err(e);
                }
                self.protocol_name = data.protocol_name;
                Ok(())
            },
            AgreementUpdateType::ContactDetails => {
                if let Err(e) = validate_contact_details(&data.contact_details) {
                    return Err(e);
                }
                self.contact_details = data.contact_details;
                Ok(())
            },
            AgreementUpdateType::BountyTerms => {
                if let Err(e) = validate_bounty_terms(&data.bounty_terms) {
                    return Err(e);
                }
                self.bounty_terms = data.bounty_terms;
                Ok(())
            },
            AgreementUpdateType::AgreementUri => {
                if let Err(e) = validate_agreement_uri(data.agreement_uri.as_str()) {
                    return Err(e);
                }
                self.agreement_uri = data.agreement_uri;
                Ok(())
            },
            AgreementUpdateType::InitializeOrUpdate => {
                if let Err(e) = data.validate_agreement_data() {
                    return Err(e);
                }
                self.owner = owner;
                self.protocol_name = data.protocol_name;
                self.contact_details = data.contact_details;
                self.bounty_terms = data.bounty_terms;
                self.agreement_uri = data.agreement_uri;
                Ok(())
            },
        }
    }
}

impl Default for AgreementData {
    fn default() -> (r: AgreementData)
        ensures
            r.owner@ == Identity::default_spec(),
            r.protocol_name@.len() == 0,
            r.contact_details@.len() == 0,
            r.agreement_uri@.len() == 0,
    {
        AgreementData::new()
    }
}

} // verus!
