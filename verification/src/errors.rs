use vstd::prelude::*;

verus! {

/// Every way an operation of this library can fail.
///
/// Each validation failure aborts the whole operation before any field is
/// written and surfaces exactly one of these kinds to the caller.
#[derive(Clone, Copy, Debug, PartialEq, Eq, Structural)]
pub enum SafeHarborError {
    /// The registry has not been initialized yet.
    RegistryNotInitialized,
    /// The registry was already initialized.
    RegistryAlreadyInitialized,
    /// The caller is not the registry owner.
    NotRegistryOwner,
    /// A network identifier is not a well-formed CAIP-2 string.
    InvalidNetworkId,
    /// A network identifier is not in the registry's recognized set.
    NetworkNotRecognized,
    /// The same network identifier appears twice in one scope list.
    DuplicateNetworkId,
    /// The protocol name is empty, blank, or over its length bound.
    InvalidProtocolName,
    /// A contact entry is blank or a contact bound is exceeded.
    InvalidContactDetails,
    /// The agreement URI is over its length bound or lacks an accepted scheme.
    InvalidAgreementUri,
    /// An account or recovery address fails its shape or uniqueness rule.
    InvalidAccountParams,
    /// The update kind is unknown or its required payload is missing.
    InvalidUpdateType,
    /// A variable-length field exceeds its count or length bound.
    FieldLengthExceeded,
    /// The bounty percentage is over 100.
    InvalidBountyPercentage,
    /// The per-incident bounty cap is zero.
    InvalidBountyCap,
    /// The aggregate bounty cap is set but smaller than the per-incident cap.
    InvalidAggregateBountyCap,
    /// A nonzero aggregate bounty cap and the retainable flag are both set.
    ConflictingRetainableAndAggregateCap,
    /// No agreement is recorded for the adopter.
    NoAgreementForAdopter,
    /// The adoption record has never been written.
    AdoptionEntryNotFound,
    /// An adoption record already exists where none was expected.
    AdoptionAlreadyExists,
    /// The record's storage allocation cannot hold the prospective contents.
    InsufficientCapacity,
    /// A caller-supplied seed hash disagrees with the recomputed one.
    AddressHashMismatch,
}

} // verus!
