//! The per-network adoption record and its partial-update dispatcher.
//!
//! One adopter holds one record per network; the record is addressed by the
//! adopter and the SHA-256 digest of the network identifier, and every call
//! carries both the identifier and the claimed digest. The dispatcher
//! recomputes the digest and rejects a call whose claimed digest disagrees,
//! so no caller can write under an identifier it does not hold.
//!
//! Each update kind requires its own payload fields and replaces exactly
//! the fields it names; on any validation or capacity failure the record is
//! left untouched.

use vstd::prelude::*;
use vstd::string::StrSliceExecFns;

use crate::address::sha256_of;
use crate::capacity::{adoption_content_size, adoption_encoded_size, calculate_required_space};
use crate::errors::SafeHarborError;
use crate::registry::seq_contains_str;
use crate::types::{acct_view, acct_views, bytes32_eq, copy_account, AccountInScope, ChildContractScope, Identity};
use crate::validation::{
    str_eq, valid_account_address, valid_caip2, validate_account_address, validate_caip2_chain_id,
};

verus! {

/// Longest accepted network identifier, in characters.
pub const MAX_CHAIN_ID_LEN: usize = 64;

/// Longest accepted asset-recovery address, in characters; generous enough
/// for every major network's address format.
pub const MAX_ASSET_RECOVERY_ADDR_LEN: usize = 128;

/// Most covered accounts one adoption record holds.
pub const MAX_ACCOUNTS_PER_CHAIN: usize = 50;

/// Longest accepted covered-account address, in characters.
pub const MAX_ACCOUNT_ADDR_LEN: usize = 64;

/// Which subset of an adoption record one update call replaces.
#[derive(Clone, Copy, Debug, PartialEq, Eq, Structural)]
pub enum AdoptUpdateType {
    /// First write of the record, or a full update of it.
    InitializeOrUpdate,
    /// Replace agreement reference, recovery address, and account list.
    ReplaceAll,
    /// Insert accounts that are not yet covered.
    AddAccounts,
    /// Drop the accounts with the given addresses.
    RemoveAccounts,
    /// Replace the asset-recovery address only.
    UpdateAssetRecoveryAddress,
    /// Replace the agreement reference only, without re-validation of the
    /// referenced record's content.
    UpdateAgreement,
}

impl AdoptUpdateType {
    /// Decode the wire code of an update kind. Codes 0 through 5 are the
    /// kinds in declaration order; anything else is rejected.
    pub fn from_code(code: u8) -> (r: Result<AdoptUpdateType, SafeHarborError>)
        ensures
            r == match code {
                0u8 => Ok::<AdoptUpdateType, SafeHarborError>(AdoptUpdateType::InitializeOrUpdate),
                1u8 => Ok::<AdoptUpdateType, SafeHarborError>(AdoptUpdateType::ReplaceAll),
                2u8 => Ok::<AdoptUpdateType, SafeHarborError>(AdoptUpdateType::AddAccounts),
                3u8 => Ok::<AdoptUpdateType, SafeHarborError>(AdoptUpdateType::RemoveAccounts),
                4u8 => Ok::<AdoptUpdateType, SafeHarborError>(
                    AdoptUpdateType::UpdateAssetRecoveryAddress,
                ),
                5u8 => Ok::<AdoptUpdateType, SafeHarborError>(AdoptUpdateType::UpdateAgreement),
                _ => Err::<AdoptUpdateType, SafeHarborError>(SafeHarborError::InvalidUpdateType),
            },
    {
        match code {
            0 => Ok(AdoptUpdateType::InitializeOrUpdate),
            1 => Ok(AdoptUpdateType::ReplaceAll),
            2 => Ok(AdoptUpdateType::AddAccounts),
            3 => Ok(AdoptUpdateType::RemoveAccounts),
            4 => Ok(AdoptUpdateType::UpdateAssetRecoveryAddress),
            5 => Ok(AdoptUpdateType::UpdateAgreement),
            _ => Err(SafeHarborError::InvalidUpdateType),
        }
    }
}

// ---------------------------------------------------------------------------
// Account-list content operations
// ---------------------------------------------------------------------------

/// Is an address among the entries?
pub open spec fn has_address(s: Seq<(Seq<char>, ChildContractScope)>, addr: Seq<char>) -> bool {
    exists|i: int| 0 <= i < s.len() && s[i].0 == addr
}

/// No two entries carry the same address.
pub open spec fn no_dup_entry_addresses(s: Seq<(Seq<char>, ChildContractScope)>) -> bool {
    forall|i: int, j: int| 0 <= i < j < s.len() ==> s[i].0 != s[j].0
}

/// The account list after the idempotent, order-preserving union insert of
/// `new`: each entry is appended only if no entry with its address is
/// already there.
pub open spec fn add_accounts(
    cur: Seq<(Seq<char>, ChildContractScope)>,
    new: Seq<(Seq<char>, ChildContractScope)>,
) -> Seq<(Seq<char>, ChildContractScope)>
    decreases new.len(),
{
    if new.len() == 0 {
        cur
    } else {
        let cur2 = if has_address(cur, new[0].0) {
            cur
        } else {
            cur.push(new[0])
        };
        add_accounts(cur2, new.drop_first())
    }
}

/// The account list after dropping every entry whose address is in
/// `removals`.
pub open spec fn remove_accounts(
    cur: Seq<(Seq<char>, ChildContractScope)>,
    removals: Seq<Seq<char>>,
) -> Seq<(Seq<char>, ChildContractScope)> {
    cur.filter(|a: (Seq<char>, ChildContractScope)| !seq_contains_str(removals, a.0))
}

/// An address present in `cur` is still present after the union insert.
proof fn lemma_add_accounts_keeps(
    cur: Seq<(Seq<char>, ChildContractScope)>,
    new: Seq<(Seq<char>, ChildContractScope)>,
    addr: Seq<char>,
)
    requires
        has_address(cur, addr),
    ensures
        has_address(add_accounts(cur, new), addr),
    decreases new.len(),
{
    if new.len() > 0 {
        let cur2 = if has_address(cur, new[0].0) {
            cur
        } else {
            cur.push(new[0])
        };
        if !has_address(cur, new[0].0) {
            let i = choose|i: int| 0 <= i < cur.len() && cur[i].0 == addr;
            assert(cur2[i].0 == addr);
        }
        lemma_add_accounts_keeps(cur2, new.drop_first(), addr);
    }
}

/// Every inserted entry's address is present after the union insert.
proof fn lemma_add_accounts_has_new(
    cur: Seq<(Seq<char>, ChildContractScope)>,
    new: Seq<(Seq<char>, ChildContractScope)>,
    k: int,
)
    requires
        0 <= k < new.len(),
    ensures
        has_address(add_accounts(cur, new), new[k].0),
    decreases new.len(),
{
    let cur2 = if has_address(cur, new[0].0) {
        cur
    } else {
        cur.push(new[0])
    };
    if k == 0 {
        if !has_address(cur, new[0].0) {
            assert(cur2[cur.len() as int].0 == new[0].0);
        }
        lemma_add_accounts_keeps(cur2, new.drop_first(), new[0].0);
    } else {
        assert(new.drop_first()[k - 1] == new[k]);
        lemma_add_accounts_has_new(cur2, new.drop_first(), k - 1);
    }
}

/// Inserting entries whose addresses are all covered changes nothing.
proof fn lemma_add_accounts_noop(
    cur: Seq<(Seq<char>, ChildContractScope)>,
    new: Seq<(Seq<char>, ChildContractScope)>,
)
    requires
        forall|k: int| 0 <= k < new.len() ==> has_address(cur, #[trigger] new[k].0),
    ensures
        add_accounts(cur, new) == cur,
    decreases new.len(),
{
    if new.len() > 0 {
        assert(has_address(cur, new[0].0));
        assert(forall|k: int|
            0 <= k < new.drop_first().len() ==> #[trigger] new.drop_first()[k] == new[k + 1]);
        lemma_add_accounts_noop(cur, new.drop_first());
    }
}

/// Inserting accounts is idempotent: re-submitting the same entries leaves
/// the account list exactly as after the first submission.
pub proof fn lemma_add_accounts_idempotent(
    cur: Seq<(Seq<char>, ChildContractScope)>,
    new: Seq<(Seq<char>, ChildContractScope)>,
)
    ensures
        add_accounts(add_accounts(cur, new), new) == add_accounts(cur, new),
{
    let r = add_accounts(cur, new);
    assert forall|k: int| 0 <= k < new.len() implies has_address(r, #[trigger] new[k].0) by {
        lemma_add_accounts_has_new(cur, new, k);
    }
    lemma_add_accounts_noop(r, new);
}

/// Removing addresses none of which is covered leaves the list unchanged.
pub proof fn lemma_remove_accounts_absent(
    cur: Seq<(Seq<char>, ChildContractScope)>,
    removals: Seq<Seq<char>>,
)
    requires
        forall|k: int| 0 <= k < removals.len() ==> !has_address(cur, #[trigger] removals[k]),
    ensures
        remove_accounts(cur, removals) == cur,
    decreases cur.len(),
{
    reveal(Seq::filter);
    if cur.len() > 0 {
        let rest = cur.drop_last();
        assert forall|k: int|
            0 <= k < removals.len() implies !has_address(rest, #[trigger] removals[k]) by {
            if has_address(rest, removals[k]) {
                let i = choose|i: int| 0 <= i < rest.len() && rest[i].0 == removals[k];
                assert(cur[i].0 == removals[k]);
            }
        }
        lemma_remove_accounts_absent(rest, removals);
        assert(cur.last() == cur[cur.len() - 1]);
        assert(!seq_contains_str(removals, cur.last().0)) by {
            if seq_contains_str(removals, cur.last().0) {
                let k = choose|k: int| 0 <= k < removals.len() && removals[k] == cur.last().0;
                assert(has_address(cur, removals[k]));
            }
        }
        assert(remove_accounts(cur, removals) =~= cur);
    }
}

/// Removal keeps distinct addresses, never grows the list, and introduces
/// no entry of its own.
proof fn lemma_remove_accounts_bounds(
    cur: Seq<(Seq<char>, ChildContractScope)>,
    removals: Seq<Seq<char>>,
)
    requires
        no_dup_entry_addresses(cur),
    ensures
        no_dup_entry_addresses(remove_accounts(cur, removals)),
        remove_accounts(cur, removals).len() <= cur.len(),
        forall|i: int|
            0 <= i < remove_accounts(cur, removals).len() ==> exists|w: int|
                0 <= w < cur.len() && cur[w] == #[trigger] remove_accounts(cur, removals)[i],
    decreases cur.len(),
{
    reveal(Seq::filter);
    let r = remove_accounts(cur, removals);
    if cur.len() > 0 {
        let rest = cur.drop_last();
        assert(no_dup_entry_addresses(rest));
        lemma_remove_accounts_bounds(rest, removals);
        let rr = remove_accounts(rest, removals);
        assert forall|i: int|
            0 <= i < rr.len() implies exists|w: int| 0 <= w < cur.len() && cur[w]
            == #[trigger] rr[i] by {
            let w = choose|w: int| 0 <= w < rest.len() && rest[w] == rr[i];
            assert(cur[w] == rr[i]);
        }
        if !seq_contains_str(removals, cur.last().0) {
            assert(r == rr.push(cur.last()));
            assert(cur.last() == cur[cur.len() - 1]);
            assert forall|i: int, j: int| 0 <= i < j < r.len() implies r[i].0 != r[j].0 by {
                if j == r.len() - 1 {
                    let w = choose|w: int| 0 <= w < rest.len() && rest[w] == #[trigger] rr[i];
                    assert(cur[w] == r[i]);
                }
            }
        } else {
            assert(r == rr);
        }
    }
}

// ---------------------------------------------------------------------------
// The record
// ---------------------------------------------------------------------------

/// The mathematical content of an adoption record.
pub ghost struct AdoptContent {
    /// The adopted agreement's address.
    pub agreement: Seq<u8>,
    /// The network identifier this record is scoped to.
    pub chain_id: Seq<char>,
    /// Where recovered assets are sent on this network.
    pub recovery: Seq<char>,
    /// The covered accounts: address and child-contract scope each.
    pub accounts: Seq<(Seq<char>, ChildContractScope)>,
    /// The record's storage allocation, in bytes.
    pub allocated: u64,
}

/// An adoption record: one adopter's adoption of one agreement on one
/// network.
#[derive(Clone, Debug)]
pub struct Adopt {
    /// The adopted agreement's address; the zero identity until the record
    /// is first written.
    pub agreement: Identity,
    /// CAIP-2 network identifier this record is scoped to.
    pub caip2_chain_id: String,
    /// Where recovered assets are sent on this network.
    pub asset_recovery_address: String,
    /// The covered contract accounts on this network.
    pub accounts: Vec<AccountInScope>,
    /// Storage bytes allocated for this record at creation.
    pub allocated_space: u64,
}

impl View for Adopt {
    type V = AdoptContent;

    open spec fn view(&self) -> AdoptContent {
        AdoptContent {
            agreement: self.agreement@,
            chain_id: self.caip2_chain_id@,
            recovery: self.asset_recovery_address@,
            accounts: acct_views(self.accounts@),
            allocated: self.allocated_space,
        }
    }
}

/// The record invariant: every variable-length field within its bound, no
/// covered address listed twice.
pub open spec fn wf_content(c: AdoptContent) -> bool {
    &&& c.chain_id.len() <= MAX_CHAIN_ID_LEN
    &&& c.recovery.len() <= MAX_ASSET_RECOVERY_ADDR_LEN
    &&& c.accounts.len() <= MAX_ACCOUNTS_PER_CHAIN
    &&& (forall|i: int| 0 <= i < c.accounts.len() ==> #[trigger] c.accounts[i].0.len()
        <= MAX_ACCOUNT_ADDR_LEN)
    &&& no_dup_entry_addresses(c.accounts)
}

// ---------------------------------------------------------------------------
// Update outcomes
// ---------------------------------------------------------------------------

/// The exact outcome of checking a prospective recovery address: its length
/// bound, then its per-namespace shape.
pub open spec fn check_recovery(recovery: Seq<char>, chain: Seq<char>) -> Result<
    (),
    SafeHarborError,
> {
    if recovery.len() > MAX_ASSET_RECOVERY_ADDR_LEN {
        Err(SafeHarborError::FieldLengthExceeded)
    } else if !valid_account_address(recovery, chain) {
        Err(SafeHarborError::InvalidAccountParams)
    } else {
        Ok(())
    }
}

/// The exact outcome of checking a prospective account list: its count
/// bound, each address's length bound, then address uniqueness.
pub open spec fn check_account_list(accounts: Seq<(Seq<char>, ChildContractScope)>) -> Result<
    (),
    SafeHarborError,
> {
    if accounts.len() > MAX_ACCOUNTS_PER_CHAIN {
        Err(SafeHarborError::FieldLengthExceeded)
    } else if exists|i: int|
        0 <= i < accounts.len() && #[trigger] accounts[i].0.len() > MAX_ACCOUNT_ADDR_LEN {
        Err(SafeHarborError::FieldLengthExceeded)
    } else if !no_dup_entry_addresses(accounts) {
        Err(SafeHarborError::InvalidAccountParams)
    } else {
        Ok(())
    }
}

/// Outcome of `InitializeOrUpdate`: requires the recovery address and the
/// account list, a non-zero agreement reference, and a well-formed network
/// identifier; on the record's first write it sizes the allocation, on a
/// later one it must fit the existing allocation.
pub open spec fn init_update_result(
    prior: AdoptContent,
    agreement_ref: Seq<u8>,
    chain_id: Seq<char>,
    recovery: Option<Seq<char>>,
    accounts: Option<Seq<(Seq<char>, ChildContractScope)>>,
) -> Result<AdoptContent, SafeHarborError> {
    match (recovery, accounts) {
        (Some(rec), Some(accts)) => {
            if agreement_ref == Identity::default_spec() {
                Err(SafeHarborError::InvalidAccountParams)
            } else if !valid_caip2(chain_id) {
                Err(SafeHarborError::InvalidNetworkId)
            } else if check_recovery(rec, chain_id) is Err {
                Err(check_recovery(rec, chain_id)->Err_0)
            } else if check_account_list(accts) is Err {
                Err(check_account_list(accts)->Err_0)
            } else {
                let size = adoption_encoded_size(chain_id, rec, accts);
                if prior.agreement == Identity::default_spec() {
                    Ok(
                        AdoptContent {
                            agreement: agreement_ref,
                            chain_id: chain_id,
                            recovery: rec,
                            accounts: accts,
                            allocated: (8 + size + size / 4) as u64,
                        },
                    )
                } else if 8 + size > prior.allocated {
                    Err(SafeHarborError::InsufficientCapacity)
                } else {
                    Ok(
                        AdoptContent {
                            agreement: agreement_ref,
                            chain_id: chain_id,
                            recovery: rec,
                            accounts: accts,
                            allocated: prior.allocated,
                        },
                    )
                }
            }
        },
        _ => Err(SafeHarborError::InvalidUpdateType),
    }
}

/// Outcome of `ReplaceAll`: requires every payload field and an initialized
/// record; validates like an initialization against the record's own
/// network, keeps the network identifier and allocation.
pub open spec fn replace_update_result(
    prior: AdoptContent,
    new_agreement: Option<Seq<u8>>,
    recovery: Option<Seq<char>>,
    accounts: Option<Seq<(Seq<char>, ChildContractScope)>>,
) -> Result<AdoptContent, SafeHarborError> {
    match (new_agreement, recovery, accounts) {
        (Some(ag), Some(rec), Some(accts)) => {
            if prior.agreement == Identity::default_spec() {
                Err(SafeHarborError::AdoptionEntryNotFound)
            } else if ag == Identity::default_spec() {
                Err(SafeHarborError::InvalidAccountParams)
            } else if check_recovery(rec, prior.chain_id) is Err {
                Err(check_recovery(rec, prior.chain_id)->Err_0)
            } else if check_account_list(accts) is Err {
                Err(check_account_list(accts)->Err_0)
            } else if 8 + adoption_encoded_size(prior.chain_id, rec, accts) > prior.allocated {
                Err(SafeHarborError::InsufficientCapacity)
            } else {
                Ok(
                    AdoptContent {
                        agreement: ag,
                        chain_id: prior.chain_id,
                        recovery: rec,
                        accounts: accts,
                        allocated: prior.allocated,
                    },
                )
            }
        },
        _ => Err(SafeHarborError::InvalidUpdateType),
    }
}

/// Outcome of `AddAccounts`: requires the account list and an initialized
/// record; union-inserts the new entries, bounded by the record's count
/// bound and its allocation.
pub open spec fn add_accounts_update_result(
    prior: AdoptContent,
    accounts: Option<Seq<(Seq<char>, ChildContractScope)>>,
) -> Result<AdoptContent, SafeHarborError> {
    match accounts {
        Some(new) => {
            if prior.agreement == Identity::default_spec() {
                Err(SafeHarborError::AdoptionEntryNotFound)
            } else if exists|i: int|
                0 <= i < new.len() && #[trigger] new[i].0.len() > MAX_ACCOUNT_ADDR_LEN {
                Err(SafeHarborError::FieldLengthExceeded)
            } else {
                let merged = add_accounts(prior.accounts, new);
                if merged.len() > MAX_ACCOUNTS_PER_CHAIN {
                    Err(SafeHarborError::FieldLengthExceeded)
                } else if 8 + adoption_encoded_size(prior.chain_id, prior.recovery, merged)
                    > prior.allocated {
                    Err(SafeHarborError::InsufficientCapacity)
                } else {
                    Ok(
                        AdoptContent {
                            agreement: prior.agreement,
                            chain_id: prior.chain_id,
                            recovery: prior.recovery,
                            accounts: merged,
                            allocated: prior.allocated,
                        },
                    )
                }
            }
        },
        None => Err(SafeHarborError::InvalidUpdateType),
    }
}

/// Outcome of `RemoveAccounts`: requires the removal list and an
/// initialized record; drops the named addresses, absent ones silently.
pub open spec fn remove_accounts_update_result(
    prior: AdoptContent,
    removals: Option<Seq<Seq<char>>>,
) -> Result<AdoptContent, SafeHarborError> {
    match removals {
        Some(del) => {
            if prior.agreement == Identity::default_spec() {
                Err(SafeHarborError::AdoptionEntryNotFound)
            } else {
                Ok(
                    AdoptContent {
                        agreement: prior.agreement,
                        chain_id: prior.chain_id,
                        recovery: prior.recovery,
                        accounts: remove_accounts(prior.accounts, del),
                        allocated: prior.allocated,
                    },
                )
            }
        },
        None => Err(SafeHarborError::InvalidUpdateType),
    }
}

/// Outcome of `UpdateAssetRecoveryAddress`: requires the address and an
/// initialized record; validates it against the record's own network and
/// checks the allocation still suffices.
pub open spec fn update_recovery_update_result(
    prior: AdoptContent,
    recovery: Option<Seq<char>>,
) -> Result<AdoptContent, SafeHarborError> {
    match recovery {
        Some(rec) => {
            if prior.agreement == Identity::default_spec() {
                Err(SafeHarborError::AdoptionEntryNotFound)
            } else if check_recovery(rec, prior.chain_id) is Err {
                Err(check_recovery(rec, prior.chain_id)->Err_0)
            } else if 8 + adoption_encoded_size(prior.chain_id, rec, prior.accounts)
                > prior.allocated {
                Err(SafeHarborError::InsufficientCapacity)
            } else {
                Ok(
                    AdoptContent {
                        agreement: prior.agreement,
                        chain_id: prior.chain_id,
                        recovery: rec,
                        accounts: prior.accounts,
                        allocated: prior.allocated,
                    },
                )
            }
        },
        None => Err(SafeHarborError::InvalidUpdateType),
    }
}

/// Outcome of `UpdateAgreement`: requires the reference and an initialized
/// record; replaces the reference without re-validating the referenced
/// record's content.
pub open spec fn update_agreement_update_result(
    prior: AdoptContent,
    new_agreement: Option<Seq<u8>>,
) -> Result<AdoptContent, SafeHarborError> {
    match new_agreement {
        Some(ag) => {
            if prior.agreement == Identity::default_spec() {
                Err(SafeHarborError::AdoptionEntryNotFound)
            } else if ag == Identity::default_spec() {
                Err(SafeHarborError::InvalidAccountParams)
            } else {
                Ok(
                    AdoptContent {
                        agreement: ag,
                        chain_id: prior.chain_id,
                        recovery: prior.recovery,
                        accounts: prior.accounts,
                        allocated: prior.allocated,
                    },
                )
            }
        },
        None => Err(SafeHarborError::InvalidUpdateType),
    }
}

/// The record an update call leaves behind, or the error that aborts it,
/// given the already recomputed digest of the network identifier: the
/// claimed digest must match the recomputed one, the identifier must be
/// within its length bound, then the named update kind runs.
pub open spec fn adoption_update_checked(
    prior: AdoptContent,
    agreement_ref: Seq<u8>,
    chain_id: Seq<char>,
    claimed_hash: Seq<u8>,
    computed_hash: Seq<u8>,
    update_type: AdoptUpdateType,
    new_agreement: Option<Seq<u8>>,
    recovery: Option<Seq<char>>,
    accounts: Option<Seq<(Seq<char>, ChildContractScope)>>,
    removals: Option<Seq<Seq<char>>>,
) -> Result<AdoptContent, SafeHarborError> {
    if claimed_hash != computed_hash {
        Err(SafeHarborError::AddressHashMismatch)
    } else if chain_id.len() > MAX_CHAIN_ID_LEN {
        Err(SafeHarborError::FieldLengthExceeded)
    } else {
        match update_type {
            AdoptUpdateType::InitializeOrUpdate => init_update_result(
                prior,
                agreement_ref,
                chain_id,
                recovery,
                accounts,
            ),
            AdoptUpdateType::ReplaceAll => replace_update_result(
                prior,
                new_agreement,
                recovery,
                accounts,
            ),
            AdoptUpdateType::AddAccounts => add_accounts_update_result(prior, accounts),
            AdoptUpdateType::RemoveAccounts => remove_accounts_update_result(prior, removals),
            AdoptUpdateType::UpdateAssetRecoveryAddress => update_recovery_update_result(
                prior,
                recovery,
            ),
            AdoptUpdateType::UpdateAgreement => update_agreement_update_result(
                prior,
                new_agreement,
            ),
        }
    }
}

/// The record an update call leaves behind, or the error that aborts it,
/// with the digest of the network identifier recomputed from its plaintext.
pub open spec fn adoption_update_result(
    prior: AdoptContent,
    agreement_ref: Seq<u8>,
    chain_id: Seq<char>,
    claimed_hash: Seq<u8>,
    update_type: AdoptUpdateType,
    new_agreement: Option<Seq<u8>>,
    recovery: Option<Seq<char>>,
    accounts: Option<Seq<(Seq<char>, ChildContractScope)>>,
    removals: Option<Seq<Seq<char>>>,
) -> Result<AdoptContent, SafeHarborError> {
    adoption_update_checked(
        prior,
        agreement_ref,
        chain_id,
        claimed_hash,
        sha256_of(chain_id),
        update_type,
        new_agreement,
        recovery,
        accounts,
        removals,
    )
}

/// The view of an optional identity.
pub open spec fn opt_id_view(o: Option<Identity>) -> Option<Seq<u8>> {
    match o {
        Some(x) => Some(x@),
        None => None,
    }
}

/// The view of an optional string.
pub open spec fn opt_str_view(o: Option<String>) -> Option<Seq<char>> {
    match o {
        Some(x) => Some(x@),
        None => None,
    }
}

/// The contents of an optional account list.
pub open spec fn opt_accts_view(o: Option<Vec<AccountInScope>>) -> Option<
    Seq<(Seq<char>, ChildContractScope)>,
> {
    match o {
        Some(x) => Some(acct_views(x@)),
        None => None,
    }
}

/// The views of an optional string list.
pub open spec fn opt_strs_view(o: Option<Vec<String>>) -> Option<Seq<Seq<char>>> {
    match o {
        Some(x) => Some(crate::registry::str_views(x@)),
        None => None,
    }
}

// ---------------------------------------------------------------------------
// Executable helpers
// ---------------------------------------------------------------------------

/// One union-insert step from the back.
proof fn lemma_add_accounts_snoc(
    cur: Seq<(Seq<char>, ChildContractScope)>,
    new: Seq<(Seq<char>, ChildContractScope)>,
    x: (Seq<char>, ChildContractScope),
)
    ensures
        add_accounts(cur, new.push(x)) == {
            let r = add_accounts(cur, new);
            if has_address(r, x.0) {
                r
            } else {
                r.push(x)
            }
        },
    decreases new.len(),
{
    if new.len() == 0 {
        assert(new.push(x)[0] == x);
        assert(new.push(x).drop_first() =~= Seq::<(Seq<char>, ChildContractScope)>::empty());
        let cur2 = if has_address(cur, x.0) {
            cur
        } else {
            cur.push(x)
        };
        assert(add_accounts(cur2, Seq::<(Seq<char>, ChildContractScope)>::empty()) == cur2);
    } else {
        assert(new.push(x)[0] == new[0]);
        assert(new.push(x).drop_first() =~= new.drop_first().push(x));
        let cur2 = if has_address(cur, new[0].0) {
            cur
        } else {
            cur.push(new[0])
        };
        lemma_add_accounts_snoc(cur2, new.drop_first(), x);
    }
}

/// Checks a prospective account list against its count bound, each
/// address's length bound, and address uniqueness.
#[verifier::loop_isolation(false)]
fn check_account_list_exec(accounts: &Vec<AccountInScope>) -> (r: Result<(), SafeHarborError>)
    ensures
        r == check_account_list(acct_views(accounts@)),
{
    let ghost views = acct_views(accounts@);
    if accounts.len() > MAX_ACCOUNTS_PER_CHAIN {
        return Err(SafeHarborError::FieldLengthExceeded);
    }
    let mut i: usize = 0;
    while i < accounts.len()
        invariant
            0 <= i <= accounts@.len(),
            forall|j: int| 0 <= j < i ==> #[trigger] views[j].0.len() <= MAX_ACCOUNT_ADDR_LEN,
            views == acct_views(accounts@),
        decreases accounts@.len() - i,
    {
        proof {
            assert(views[i as int].0 == accounts@[i as int].account_address@);
        }
        if accounts[i].account_address.as_str().unicode_len() > MAX_ACCOUNT_ADDR_LEN {
            return Err(SafeHarborError::FieldLengthExceeded);
        }
        i += 1;
    }
    let mut i: usize = 0;
    while i < accounts.len()
        invariant
            0 <= i <= accounts@.len(),
            forall|k: int, j: int| 0 <= k < j < i ==> views[k].0 != views[j].0,
            views == acct_views(accounts@),
        decreases accounts@.len() - i,
    {
        let mut j: usize = 0;
        while j < i
            invariant
                0 <= j <= i < accounts@.len(),
                forall|t: int| 0 <= t < j ==> views[t].0 != views[i as int].0,
                views == acct_views(accounts@),
            decreases i - j,
        {
            proof {
                assert(views[j as int].0 == accounts@[j as int].account_address@);
                assert(views[i as int].0 == accounts@[i as int].account_address@);
            }
            if str_eq(
                accounts[j].account_address.as_str(),
                accounts[i].account_address.as_str(),
            ) {
                return Err(SafeHarborError::InvalidAccountParams);
            }
            j += 1;
        }
        i += 1;
    }
    Ok(())
}

/// The order-preserving union insert of `new` into `cur`, copying contents.
#[verifier::loop_isolation(false)]
fn merge_accounts(cur: &Vec<AccountInScope>, new: &Vec<AccountInScope>) -> (r: Vec<
    AccountInScope,
>)
    requires
        no_dup_entry_addresses(acct_views(cur@)),
        forall|i: int|
            0 <= i < cur@.len() ==> #[trigger] acct_views(cur@)[i].0.len()
                <= MAX_ACCOUNT_ADDR_LEN,
        forall|i: int|
            0 <= i < new@.len() ==> #[trigger] acct_views(new@)[i].0.len()
                <= MAX_ACCOUNT_ADDR_LEN,
    ensures
        acct_views(r@) == add_accounts(acct_views(cur@), acct_views(new@)),
        no_dup_entry_addresses(acct_views(r@)),
        forall|i: int|
            0 <= i < r@.len() ==> #[trigger] acct_views(r@)[i].0.len() <= MAX_ACCOUNT_ADDR_LEN,
{
    let ghost cur_views = acct_views(cur@);
    let ghost new_views = acct_views(new@);
    let mut result: Vec<AccountInScope> = Vec::new();
    let mut i: usize = 0;
    while i < cur.len()
        invariant
            0 <= i <= cur@.len(),
            result@.len() == i,
            forall|j: int| 0 <= j < i ==> #[trigger] acct_view(result@[j]) == acct_view(cur@[j]),
        decreases cur@.len() - i,
    {
        result.push(copy_account(&cur[i]));
        i += 1;
    }
    proof {
        assert(acct_views(result@) =~= cur_views);
        assert(new_views.subrange(0, 0) =~= Seq::<(Seq<char>, ChildContractScope)>::empty());
        assert(add_accounts(cur_views, new_views.subrange(0, 0)) == cur_views);
    }
    let mut k: usize = 0;
    while k < new.len()
        invariant
            0 <= k <= new@.len(),
            acct_views(result@) == add_accounts(cur_views, new_views.subrange(0, k as int)),
            no_dup_entry_addresses(acct_views(result@)),
            forall|i: int|
                0 <= i < result@.len() ==> #[trigger] acct_views(result@)[i].0.len()
                    <= MAX_ACCOUNT_ADDR_LEN,
            cur_views == acct_views(cur@),
            new_views == acct_views(new@),
        decreases new@.len() - k,
    {
        let ghost pre = result@;
        let mut present = false;
        let mut j: usize = 0;
        while j < result.len()
            invariant
                0 <= j <= result@.len(),
                present ==> has_address(acct_views(result@), new_views[k as int].0),
                !present ==> (forall|t: int|
                    0 <= t < j ==> #[trigger] acct_views(result@)[t].0 != new_views[k as int].0),
                result@ == pre,
                k < new@.len(),
                new_views == acct_views(new@),
            decreases result@.len() - j,
        {
            proof {
                assert(acct_views(result@)[j as int] == acct_view(result@[j as int]));
                assert(new_views[k as int] == acct_view(new@[k as int]));
            }
            if str_eq(
                result[j].account_address.as_str(),
                new[k].account_address.as_str(),
            ) {
                present = true;
            }
            j += 1;
        }
        if !present {
            result.push(copy_account(&new[k]));
            proof {
                assert(acct_views(result@) =~= acct_views(pre).push(new_views[k as int]));
            }
        }
        proof {
            let prefix = new_views.subrange(0, k as int);
            let prefix1 = new_views.subrange(0, k as int + 1);
            assert(prefix1.drop_last() =~= prefix);
            lemma_add_accounts_snoc(cur_views, prefix, new_views[k as int]);
            assert(prefix1 =~= prefix.push(new_views[k as int]));
        }
        k += 1;
    }
    proof {
        assert(new_views.subrange(0, new@.len() as int) =~= new_views);
    }
    result
}

/// The copy of `cur` without the entries whose addresses are in `removals`.
#[verifier::loop_isolation(false)]
fn filter_accounts(cur: &Vec<AccountInScope>, removals: &Vec<String>) -> (r: Vec<AccountInScope>)
    ensures
        acct_views(r@) == remove_accounts(
            acct_views(cur@),
            crate::registry::str_views(removals@),
        ),
{
    let ghost cur_views = acct_views(cur@);
    let ghost del_views = crate::registry::str_views(removals@);
    let mut result: Vec<AccountInScope> = Vec::new();
    let mut i: usize = 0;
    proof {
        reveal(Seq::filter);
        assert(cur_views.subrange(0, 0) =~= Seq::<(Seq<char>, ChildContractScope)>::empty());
        assert(acct_views(result@) =~= Seq::<(Seq<char>, ChildContractScope)>::empty());
        assert(remove_accounts(cur_views.subrange(0, 0), del_views) == Seq::<
            (Seq<char>, ChildContractScope),
        >::empty());
    }
    while i < cur.len()
        invariant
            0 <= i <= cur@.len(),
            acct_views(result@) == remove_accounts(cur_views.subrange(0, i as int), del_views),
            cur_views == acct_views(cur@),
            del_views == crate::registry::str_views(removals@),
        decreases cur@.len() - i,
    {
        let ghost pre = result@;
        let mut present = false;
        let mut j: usize = 0;
        while j < removals.len()
            invariant
                0 <= j <= removals@.len(),
                present ==> seq_contains_str(del_views, cur_views[i as int].0),
                !present ==> (forall|t: int|
                    0 <= t < j ==> #[trigger] del_views[t] != cur_views[i as int].0),
                i < cur@.len(),
                cur_views == acct_views(cur@),
                del_views == crate::registry::str_views(removals@),
            decreases removals@.len() - j,
        {
            proof {
                assert(del_views[j as int] == removals@[j as int]@);
                assert(cur_views[i as int] == acct_view(cur@[i as int]));
            }
            if str_eq(removals[j].as_str(), cur[i].account_address.as_str()) {
                present = true;
            }
            j += 1;
        }
        if !present {
            result.push(copy_account(&cur[i]));
            proof {
                assert(acct_views(result@) =~= acct_views(pre).push(cur_views[i as int]));
            }
        }
        proof {
            reveal(Seq::filter);
            let a = cur_views.subrange(0, i as int);
            let b = cur_views.subrange(0, i as int + 1);
            assert(b.drop_last() =~= a);
            assert(b.last() == cur_views[i as int]);
        }
        i += 1;
    }
    proof {
        assert(cur_views.subrange(0, cur@.len() as int) =~= cur_views);
    }
    result
}

// ---------------------------------------------------------------------------
// The record's operations
// ---------------------------------------------------------------------------

impl Adopt {
    /// A blank record, as the host leaves a never-written slot.
    pub fn new() -> (r: Adopt)
        ensures
            r@.agreement == Identity::default_spec(),
            r@.chain_id.len() == 0,
            r@.recovery.len() == 0,
            r@.accounts.len() == 0,
            r@.allocated == 0,
            wf_content(r@),
    {
        let r = Adopt {
            agreement: Identity::zero(),
            caip2_chain_id: String::new(),
            asset_recovery_address: String::new(),
            accounts: Vec::new(),
            allocated_space: 0,
        };
        proof {
            assert(acct_views(r.accounts@) =~= Seq::<(Seq<char>, ChildContractScope)>::empty());
        }
        r
    }

    /// Succeeds exactly when the record has been written at least once.
    pub fn validate_initialized(&self) -> (r: Result<(), SafeHarborError>)
        ensures
            r is Ok <==> self@.agreement != Identity::default_spec(),
            r is Err ==> r == Err::<(), SafeHarborError>(SafeHarborError::AdoptionEntryNotFound),
    {
        if self.agreement.is_zero() {
            Err(SafeHarborError::AdoptionEntryNotFound)
        } else {
            Ok(())
        }
    }

    /// Succeeds exactly when the record references an agreement.
    pub fn validate_agreement(&self) -> (r: Result<(), SafeHarborError>)
        ensures
            r is Ok <==> self@.agreement != Identity::default_spec(),
            r is Err ==> r == Err::<(), SafeHarborError>(SafeHarborError::InvalidAccountParams),
    {
        if self.agreement.is_zero() {
            Err(SafeHarborError::InvalidAccountParams)
        } else {
            Ok(())
        }
    }

    /// Succeeds exactly when the prospective reference is non-zero.
    pub fn validate_can_update(&self, new_agreement: &Identity) -> (r: Result<
        (),
        SafeHarborError,
    >)
        ensures
            r is Ok <==> new_agreement@ != Identity::default_spec(),
            r is Err ==> r == Err::<(), SafeHarborError>(SafeHarborError::InvalidAccountParams),
    {
        if new_agreement.is_zero() {
            Err(SafeHarborError::InvalidAccountParams)
        } else {
            Ok(())
        }
    }

    fn apply_init(
        &mut self,
        agreement_ref: Identity,
        chain_id: String,
        recovery: Option<String>,
        accounts: Option<Vec<AccountInScope>>,
    ) -> (r: Result<(), SafeHarborError>)
        requires
            wf_content(old(self)@),
            chain_id@.len() <= MAX_CHAIN_ID_LEN,
        ensures
            wf_content(final(self)@),
            match init_update_result(
                old(self)@,
                agreement_ref@,
                chain_id@,
                opt_str_view(recovery),
                opt_accts_view(accounts),
            ) {
                Ok(next) => r is Ok && final(self)@ == next,
                Err(e) => r == Err::<(), SafeHarborError>(e) && *final(self) == *old(self),
            },
    {
        let (rec, accts) = match (recovery, accounts) {
            (Some(rec), Some(accts)) => (rec, accts),
            _ => {
                return Err(SafeHarborError::InvalidUpdateType);
            },
        };
        if agreement_ref.is_zero() {
            return Err(SafeHarborError::InvalidAccountParams);
        }
        if validate_caip2_chain_id(chain_id.as_str()).is_err() {
            return Err(SafeHarborError::InvalidNetworkId);
        }
        if rec.as_str().unicode_len() > MAX_ASSET_RECOVERY_ADDR_LEN {
            return Err(SafeHarborError::FieldLengthExceeded);
        }
        if validate_account_address(rec.as_str(), chain_id.as_str()).is_err() {
            return Err(SafeHarborError::InvalidAccountParams);
        }
        if let Err(e) = check_account_list_exec(&accts) {
            return Err(e);
        }
        let size = adoption_content_size(chain_id.as_str(), rec.as_str(), &accts);
        proof {
            crate::capacity::lemma_accounts_size_bound(acct_views(accts@));
        }
        let allocated: u64;
        if self.agreement.is_zero() {
            allocated = calculate_required_space(size);
        } else {
            if 8 + size > self.allocated_space {
                return Err(SafeHarborError::InsufficientCapacity);
            }
            allocated = self.allocated_space;
        }
        self.agreement = agreement_ref;
        self.caip2_chain_id = chain_id;
        self.asset_recovery_address = rec;
        self.accounts = accts;
        self.allocated_space = allocated;
        Ok(())
    }

    fn apply_replace(
        &mut self,
        new_agreement: Option<Identity>,
        recovery: Option<String>,
        accounts: Option<Vec<AccountInScope>>,
    ) -> (r: Result<(), SafeHarborError>)
        requires
            wf_content(old(self)@),
        ensures
            wf_content(final(self)@),
            match replace_update_result(
                old(self)@,
                opt_id_view(new_agreement),
                opt_str_view(recovery),
                opt_accts_view(accounts),
            ) {
                Ok(next) => r is Ok && final(self)@ == next,
                Err(e) => r == Err::<(), SafeHarborError>(e) && *final(self) == *old(self),
            },
    {
        let (ag, rec, accts) = match (new_agreement, recovery, accounts) {
            (Some(ag), Some(rec), Some(accts)) => (ag, rec, accts),
            _ => {
                return Err(SafeHarborError::InvalidUpdateType);
            },
        };
        if self.agreement.is_zero() {
            return Err(SafeHarborError::AdoptionEntryNotFound);
        }
        if ag.is_zero() {
            return Err(SafeHarborError::InvalidAccountParams);
        }
        if rec.as_str().unicode_len() > MAX_ASSET_RECOVERY_ADDR_LEN {
            return Err(SafeHarborError::FieldLengthExceeded);
        }
        if validate_account_address(rec.as_str(), self.caip2_chain_id.as_str()).is_err() {
            return Err(SafeHarborError::InvalidAccountParams);
        }
        if let Err(e) = check_account_list_exec(&accts) {
            return Err(e);
        }
        let size = adoption_content_size(
            self.caip2_chain_id.as_str(),
            rec.as_str(),
            &accts,
        );
        proof {
            crate::capacity::lemma_accounts_size_bound(acct_views(accts@));
        }
        if 8 + size > self.allocated_space {
            return Err(SafeHarborError::InsufficientCapacity);
        }
        self.agreement = ag;
        self.asset_recovery_address = rec;
        self.accounts = accts;
        Ok(())
    }

    #[verifier::loop_isolation(false)]
    fn apply_add_accounts(&mut self, accounts: Option<Vec<AccountInScope>>) -> (r: Result<
        (),
        SafeHarborError,
    >)
        requires
            wf_content(old(self)@),
        ensures
            wf_content(final(self)@),
            match add_accounts_update_result(old(self)@, opt_accts_view(accounts)) {
                Ok(next) => r is Ok && final(self)@ == next,
                Err(e) => r == Err::<(), SafeHarborError>(e) && *final(self) == *old(self),
            },
    {
        let new_accts = match accounts {
            Some(a) => a,
            None => {
                return Err(SafeHarborError::InvalidUpdateType);
            },
        };
        if self.agreement.is_zero() {
            return Err(SafeHarborError::AdoptionEntryNotFound);
        }
        let ghost new_views = acct_views(new_accts@);
        let mut k: usize = 0;
        while k < new_accts.len()
            invariant
                0 <= k <= new_accts@.len(),
                forall|j: int| 0 <= j < k ==> #[trigger] new_views[j].0.len()
                    <= MAX_ACCOUNT_ADDR_LEN,
                new_views == acct_views(new_accts@),
            decreases new_accts@.len() - k,
        {
            proof {
                assert(new_views[k as int].0 == new_accts@[k as int].account_address@);
            }
            if new_accts[k].account_address.as_str().unicode_len() > MAX_ACCOUNT_ADDR_LEN {
                return Err(SafeHarborError::FieldLengthExceeded);
            }
            k += 1;
        }
        let merged = merge_accounts(&self.accounts, &new_accts);
        if merged.len() > MAX_ACCOUNTS_PER_CHAIN {
            return Err(SafeHarborError::FieldLengthExceeded);
        }
        let size = adoption_content_size(
            self.caip2_chain_id.as_str(),
            self.asset_recovery_address.as_str(),
            &merged,
        );
        proof {
            crate::capacity::lemma_accounts_size_bound(acct_views(merged@));
        }
        if 8 + size > self.allocated_space {
            return Err(SafeHarborError::InsufficientCapacity);
        }
        self.accounts = merged;
        Ok(())
    }

    fn apply_remove_accounts(&mut self, removals: Option<Vec<String>>) -> (r: Result<
        (),
        SafeHarborError,
    >)
        requires
            wf_content(old(self)@),
        ensures
            wf_content(final(self)@),
            match remove_accounts_update_result(old(self)@, opt_strs_view(removals)) {
                Ok(next) => r is Ok && final(self)@ == next,
                Err(e) => r == Err::<(), SafeHarborError>(e) && *final(self) == *old(self),
            },
    {
        let del = match removals {
            Some(d) => d,
            None => {
                return Err(SafeHarborError::InvalidUpdateType);
            },
        };
        if self.agreement.is_zero() {
            return Err(SafeHarborError::AdoptionEntryNotFound);
        }
        let filtered = filter_accounts(&self.accounts, &del);
        proof {
            lemma_remove_accounts_bounds(
                acct_views(self.accounts@),
                crate::registry::str_views(del@),
            );
        }
        self.accounts = filtered;
        Ok(())
    }

    fn apply_update_recovery(&mut self, recovery: Option<String>) -> (r: Result<
        (),
        SafeHarborError,
    >)
        requires
            wf_content(old(self)@),
        ensures
            wf_content(final(self)@),
            match update_recovery_update_result(old(self)@, opt_str_view(recovery)) {
                Ok(next) => r is Ok && final(self)@ == next,
                Err(e) => r == Err::<(), SafeHarborError>(e) && *final(self) == *old(self),
            },
    {
        let rec = match recovery {
            Some(x) => x,
            None => {
                return Err(SafeHarborError::InvalidUpdateType);
            },
        };
        if self.agreement.is_zero() {
            return Err(SafeHarborError::AdoptionEntryNotFound);
        }
        if rec.as_str().unicode_len() > MAX_ASSET_RECOVERY_ADDR_LEN {
            return Err(SafeHarborError::FieldLengthExceeded);
        }
        if validate_account_address(rec.as_str(), self.caip2_chain_id.as_str()).is_err() {
            return Err(SafeHarborError::InvalidAccountParams);
        }
        let size = adoption_content_size(
            self.caip2_chain_id.as_str(),
            rec.as_str(),
            &self.accounts,
        );
        proof {
            crate::capacity::lemma_accounts_size_bound(acct_views(self.accounts@));
        }
        if 8 + size > self.allocated_space {
            return Err(SafeHarborError::InsufficientCapacity);
        }
        self.asset_recovery_address = rec;
        Ok(())
    }

    fn apply_update_agreement(&mut self, new_agreement: Option<Identity>) -> (r: Result<
        (),
        SafeHarborError,
    >)
        requires
            wf_content(old(self)@),
        ensures
            wf_content(final(self)@),
            match update_agreement_update_result(old(self)@, opt_id_view(new_agreement)) {
                Ok(next) => r is Ok && final(self)@ == next,
                Err(e) => r == Err::<(), SafeHarborError>(e) && *final(self) == *old(self),
            },
    {
        let ag = match new_agreement {
            Some(a) => a,
            None => {
                return Err(SafeHarborError::InvalidUpdateType);
            },
        };
        if self.agreement.is_zero() {
            return Err(SafeHarborError::AdoptionEntryNotFound);
        }
        if ag.is_zero() {
            return Err(SafeHarborError::InvalidAccountParams);
        }
        self.agreement = ag;
        Ok(())
    }

    /// Apply one update call whose network-identifier digest has already
    /// been recomputed: the claimed digest must equal `computed_hash`, the
    /// identifier must be within its length bound, and then exactly the
    /// fields the update kind names are validated and replaced. On any
    /// failure the record is left untouched.
    pub fn apply_adoption_update(
        &mut self,
        agreement_ref: Identity,
        chain_id: String,
        chain_id_hash: [u8; 32],
        computed_hash: [u8; 32],
        update_type: AdoptUpdateType,
        new_agreement: Option<Identity>,
        asset_recovery_address: Option<String>,
        accounts: Option<Vec<AccountInScope>>,
        account_addresses_to_remove: Option<Vec<String>>,
    ) -> (r: Result<(), SafeHarborError>)
        requires
            wf_content(old(self)@),
        ensures
            wf_content(final(self)@),
            match adoption_update_checked(
                old(self)@,
                agreement_ref@,
                chain_id@,
                chain_id_hash@,
                computed_hash@,
                update_type,
                opt_id_view(new_agreement),
                opt_str_view(asset_recovery_address),
                opt_accts_view(accounts),
                opt_strs_view(account_addresses_to_remove),
            ) {
                Ok(next) => r is Ok && final(self)@ == next,
                Err(e) => r == Err::<(), SafeHarborError>(e) && *final(self) == *old(self),
            },
    {
        if !bytes32_eq(&chain_id_hash, &computed_hash) {
            return Err(SafeHarborError::AddressHashMismatch);
        }
        if chain_id.as_str().unicode_len() > MAX_CHAIN_ID_LEN {
            return Err(SafeHarborError::FieldLengthExceeded);
        }
        match update_type {
            AdoptUpdateType::InitializeOrUpdate => self.apply_init(
                agreement_ref,
                chain_id,
                asset_recovery_address,
                accounts,
            ),
            AdoptUpdateType::ReplaceAll => self.apply_replace(
                new_agreement,
                asset_recovery_address,
                accounts,
            ),
            AdoptUpdateType::AddAccounts => self.apply_add_accounts(accounts),
            AdoptUpdateType::RemoveAccounts => self.apply_remove_accounts(
                account_addresses_to_remove,
            ),
            AdoptUpdateType::UpdateAssetRecoveryAddress => self.apply_update_recovery(
                asset_recovery_address,
            ),
            AdoptUpdateType::UpdateAgreement => self.apply_update_agreement(new_agreement),
        }
    }

    /// Apply one update call: recompute the digest of the caller-supplied
    /// network identifier, reject the call with a hash mismatch when the
    /// claimed digest disagrees, and otherwise dispatch on the update kind.
    pub fn create_or_update_adoption(
        &mut self,
        agreement_ref: Identity,
        chain_id: String,
        chain_id_hash: [u8; 32],
        update_type: AdoptUpdateType,
        new_agreement: Option<Identity>,
        asset_recovery_address: Option<String>,
        accounts: Option<Vec<AccountInScope>>,
        account_addresses_to_remove: Option<Vec<String>>,
    ) -> (r: Result<(), SafeHarborError>)
        requires
            wf_content(old(self)@),
        ensures
            wf_content(final(self)@),
            match adoption_update_result(
                old(self)@,
                agreement_ref@,
                chain_id@,
                chain_id_hash@,
                update_type,
                opt_id_view(new_agreement),
                opt_str_view(asset_recovery_address),
                opt_accts_view(accounts),
                opt_strs_view(account_addresses_to_remove),
            ) {
                Ok(next) => r is Ok && final(self)@ == next,
                Err(e) => r == Err::<(), SafeHarborError>(e) && *final(self) == *old(self),
            },
    {
        let computed = crate::address::chain_id_hash(chain_id.as_str());
        self.apply_adoption_update(
            agreement_ref,
            chain_id,
            chain_id_hash,
            computed,
            update_type,
            new_agreement,
            asset_recovery_address,
            accounts,
            account_addresses_to_remove,
        )
    }
}

} // verus!
