//! Storage-byte budgeting for records with variable-length fields.
//!
//! A record's backing allocation is sized at creation from its encoded
//! content plus growth headroom; before a growing mutation the requirement
//! is recomputed, and the mutation fails rather than overrun the allocation.
//!
//! Encoded lengths count one byte per character of a string field; the
//! identifiers the validators accept are ASCII, where this is exact.

use vstd::prelude::*;
use vstd::string::StrSliceExecFns;

use crate::adopt::{MAX_ACCOUNTS_PER_CHAIN, MAX_ACCOUNT_ADDR_LEN};
use crate::types::{acct_views, AccountInScope, ChildContractScope};

verus! {

/// Encoded size of one covered-account entry: a length marker, the address,
/// and the child-scope tag.
pub open spec fn account_entry_size(a: (Seq<char>, ChildContractScope)) -> int {
    4 + a.0.len() as int + 1
}

/// Encoded size of a covered-account list.
pub open spec fn accounts_encoded_size(s: Seq<(Seq<char>, ChildContractScope)>) -> int
    decreases s.len(),
{
    if s.len() == 0 {
        0
    } else {
        accounts_encoded_size(s.drop_last()) + account_entry_size(s.last())
    }
}

/// Encoded size of an adoption record's content: the agreement reference,
/// then each variable-length field behind a length marker.
pub open spec fn adoption_encoded_size(
    chain: Seq<char>,
    recovery: Seq<char>,
    accounts: Seq<(Seq<char>, ChildContractScope)>,
) -> int {
    32 + 4 + chain.len() + 4 + recovery.len() + 4 + accounts_encoded_size(accounts)
}

/// An account list within the adoption bounds encodes to at most 69 bytes
/// per entry, and never to a negative size.
pub proof fn lemma_accounts_size_bound(s: Seq<(Seq<char>, ChildContractScope)>)
    requires
        forall|i: int| 0 <= i < s.len() ==> #[trigger] s[i].0.len() <= MAX_ACCOUNT_ADDR_LEN,
    ensures
        0 <= accounts_encoded_size(s) <= 69 * s.len(),
    decreases s.len(),
{
    if s.len() > 0 {
        assert(forall|i: int| 0 <= i < s.drop_last().len() ==> #[trigger] s.drop_last()[i]
            == s[i]);
        lemma_accounts_size_bound(s.drop_last());
        assert(s.last() == s[s.len() - 1]);
    }
}

/// Bytes a record of `data_size` content bytes needs: the fixed header,
/// the content, and a quarter of the content as growth headroom.
pub fn calculate_required_space(data_size: u64) -> (r: u64)
    requires
        8 + data_size + data_size / 4 <= u64::MAX,
    ensures
        r == 8 + data_size + data_size / 4,
{
    8 + data_size + data_size / 4
}

/// Encoded size of an adoption record's content, computed from its fields.
#[verifier::loop_isolation(false)]
pub fn adoption_content_size(chain_id: &str, recovery: &str, accounts: &Vec<AccountInScope>) -> (r:
    u64)
    requires
        chain_id@.len() <= 64,
        recovery@.len() <= 128,
        accounts@.len() <= MAX_ACCOUNTS_PER_CHAIN,
        forall|i: int|
            0 <= i < accounts@.len() ==> #[trigger] acct_views(accounts@)[i].0.len()
                <= MAX_ACCOUNT_ADDR_LEN,
    ensures
        r == adoption_encoded_size(chain_id@, recovery@, acct_views(accounts@)),
{
    let ghost views = acct_views(accounts@);
    let mut sum: u64 = 0;
    let mut i: usize = 0;
    proof {
        assert(views.subrange(0, 0) =~= Seq::<(Seq<char>, ChildContractScope)>::empty());
    }
    while i < accounts.len()
        invariant
            0 <= i <= accounts@.len(),
            sum == accounts_encoded_size(views.subrange(0, i as int)),
            sum <= 69 * i,
            views == acct_views(accounts@),
        decreases accounts@.len() - i,
    {
        let alen = accounts[i].account_address.as_str().unicode_len();
        proof {
            let a = views.subrange(0, i as int);
            let b = views.subrange(0, i as int + 1);
            assert(b.drop_last() =~= a);
            assert(b.last() == views[i as int]);
            assert(views[i as int].0 == accounts@[i as int].account_address@);
        }
        sum = sum + 4 + (alen as u64) + 1;
        i += 1;
    }
    proof {
        assert(views.subrange(0, accounts@.len() as int) =~= views);
    }
    let clen = chain_id.unicode_len() as u64;
    let rlen = recovery.unicode_len() as u64;
    32 + 4 + clen + 4 + rlen + 4 + sum
}

} // verus!
