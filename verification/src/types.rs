use vstd::prelude::*;

verus! {

/// A 32-byte account identity: the library's model of a host public key.
/// Records are owned and addressed by values of this type.
#[derive(Clone, Copy, Debug)]
pub struct Identity {
    pub bytes: [u8; 32],
}

impl View for Identity {
    type V = Seq<u8>;

    open spec fn view(&self) -> Seq<u8> {
        self.bytes@
    }
}

impl Identity {
    /// The all-zero identity, used by the host for never-written record slots.
    pub open spec fn default_spec() -> Seq<u8> {
        Seq::new(32, |i: int| 0u8)
    }

    pub fn new(bytes: [u8; 32]) -> (r: Identity)
        ensures
            r@ == bytes@,
    {
        Identity { bytes }
    }

    pub fn zero() -> (r: Identity)
        ensures
            r@ == Identity::default_spec(),
    {
        let bytes = [0u8; 32];
        proof {
            assert(bytes@ =~= Identity::default_spec());
        }
        Identity { bytes }
    }

    #[verifier::loop_isolation(false)]
    pub fn is_zero(&self) -> (r: bool)
        ensures
            r == (self@ == Identity::default_spec()),
    {
        let mut i: usize = 0;
        while i < 32
            invariant
                0 <= i <= 32,
                forall|j: int| 0 <= j < i ==> self.bytes@[j] == 0u8,
            decreases 32 - i,
        {
            if self.bytes[i] != 0 {
                proof {
                    assert(self@[i as int] != Identity::default_spec()[i as int]);
                }
                return false;
            }
            i += 1;
        }
        proof {
            assert(self@ =~= Identity::default_spec());
        }
        true
    }
}

impl PartialEq for Identity {
    #[verifier::loop_isolation(false)]
    fn eq(&self, other: &Identity) -> (r: bool) {
        let mut i: usize = 0;
        while i < 32
            invariant
                0 <= i <= 32,
                forall|j: int| 0 <= j < i ==> self.bytes@[j] == other.bytes@[j],
            decreases 32 - i,
        {
            if self.bytes[i] != other.bytes[i] {
                proof {
                    assert(self@[i as int] != other@[i as int]);
                }
                return false;
            }
            i += 1;
        }
        proof {
            assert(self@ =~= other@);
        }
        true
    }
}

impl vstd::std_specs::cmp::PartialEqSpecImpl for Identity {
    open spec fn obeys_eq_spec() -> bool {
        true
    }

    open spec fn eq_spec(&self, other: &Identity) -> bool {
        self@ == other@
    }
}

impl Default for Identity {
    fn default() -> (r: Identity)
        ensures
            r@ == Identity::default_spec(),
    {
        Identity::zero()
    }
}

/// One point of contact for security disclosures.
#[derive(Clone, Debug)]
pub struct Contact {
    /// Name or role of the contact.
    pub name: String,
    /// Contact method: an email address, a handle, a URL.
    pub contact: String,
}

impl Default for Contact {
    fn default() -> (r: Contact)
        ensures
            r.name@.len() == 0,
            r.contact@.len() == 0,
    {
        Contact { name: String::new(), contact: String::new() }
    }
}

/// How contracts deployed by or related to an in-scope account are covered.
#[derive(Clone, Copy, Debug, PartialEq, Eq, Structural)]
pub enum ChildContractScope {
    /// Only the listed contract itself.
    NoChildren,
    /// The contract plus children that existed before adoption.
    ExistingOnly,
    /// The contract plus all children, past and future.
    All,
    /// The contract plus only children deployed after adoption.
    FutureOnly,
}

impl Default for ChildContractScope {
    fn default() -> (r: ChildContractScope)
        ensures
            r == ChildContractScope::NoChildren,
    {
        ChildContractScope::NoChildren
    }
}

/// A contract account covered by an agreement, with its child-contract rule.
#[derive(Clone, Debug)]
pub struct AccountInScope {
    /// The contract address, written in the network's own format.
    pub account_address: String,
    /// How child contracts of this account are covered.
    pub child_contract_scope: ChildContractScope,
}

impl Default for AccountInScope {
    fn default() -> (r: AccountInScope)
        ensures
            r.account_address@.len() == 0,
            r.child_contract_scope == ChildContractScope::NoChildren,
    {
        AccountInScope {
            account_address: String::new(),
            child_contract_scope: ChildContractScope::NoChildren,
        }
    }
}

/// Identity verification level required from the security researcher.
#[derive(Clone, Copy, Debug, PartialEq, Eq, Structural)]
pub enum IdentityRequirements {
    /// No identity verification required.
    Anonymous,
    /// Some persistent pseudonymous identifier required.
    Pseudonymous,
    /// Full legal identity required.
    Named,
}

impl Default for IdentityRequirements {
    fn default() -> (r: IdentityRequirements)
        ensures
            r == IdentityRequirements::Anonymous,
    {
        IdentityRequirements::Anonymous
    }
}

/// Reward terms for researchers who recover assets under an agreement.
#[derive(Clone, Debug)]
pub struct BountyTerms {
    /// Percentage of recovered assets awarded, 0 to 100.
    pub bounty_percentage: u64,
    /// Maximum bounty in USD for a single incident; must be nonzero.
    pub bounty_cap_usd: u64,
    /// Whether the researcher may retain assets beyond the cap.
    /// Cannot be set together with a nonzero aggregate cap.
    pub retainable: bool,
    /// Identity verification requirement.
    pub identity: IdentityRequirements,
    /// Free-form diligence requirements.
    pub diligence_requirements: String,
    /// Total cap in USD across all incidents; zero means unset.
    pub aggregate_bounty_cap_usd: u64,
}

impl Default for BountyTerms {
    fn default() -> (r: BountyTerms)
        ensures
            r.bounty_percentage == 0,
            r.bounty_cap_usd == 0,
            r.retainable == false,
            r.identity == IdentityRequirements::Anonymous,
            r.diligence_requirements@.len() == 0,
            r.aggregate_bounty_cap_usd == 0,
    {
        BountyTerms {
            bounty_percentage: 0,
            bounty_cap_usd: 0,
            retainable: false,
            identity: IdentityRequirements::Anonymous,
            diligence_requirements: String::new(),
            aggregate_bounty_cap_usd: 0,
        }
    }
}

/// Are two 32-byte values equal?
#[verifier::loop_isolation(false)]
pub fn bytes32_eq(a: &[u8; 32], b: &[u8; 32]) -> (r: bool)
    ensures
        r == (a@ == b@),
{
    let mut i: usize = 0;
    while i < 32
        invariant
            0 <= i <= 32,
            forall|j: int| 0 <= j < i ==> a@[j] == b@[j],
        decreases 32 - i,
    {
        if a[i] != b[i] {
            return false;
        }
        i += 1;
    }
    proof {
        assert(a@ =~= b@);
    }
    true
}

/// A fresh covered-account entry with the same content.
pub fn copy_account(a: &AccountInScope) -> (r: AccountInScope)
    ensures
        acct_view(r) == acct_view(*a),
{
    AccountInScope {
        account_address: a.account_address.clone(),
        child_contract_scope: a.child_contract_scope,
    }
}

/// The content of one covered-account entry: its address and child scope.
pub open spec fn acct_view(a: AccountInScope) -> (Seq<char>, ChildContractScope) {
    (a.account_address@, a.child_contract_scope)
}

/// The contents of a covered-account list.
pub open spec fn acct_views(s: Seq<AccountInScope>) -> Seq<(Seq<char>, ChildContractScope)> {
    s.map_values(|a: AccountInScope| acct_view(a))
}

/// One per-network scope entry: a network identifier, the address that
/// recovered assets must be sent to on that network, and the accounts
/// covered there.
#[derive(Clone, Debug)]
pub struct Chain {
    /// CAIP-2 network identifier, such as `eip155:1`.
    pub caip2_chain_id: String,
    /// Where recovered assets are sent on this network.
    pub asset_recovery_address: String,
    /// The covered contract accounts on this network.
    pub accounts: Vec<AccountInScope>,
}

} // verus!
