//! Pure, stateless field-level and cross-field validation rules for
//! agreement, adoption, and registry data.
//!
//! Every rule is a spec-level predicate together with an executable checker
//! whose contract ties the returned error kind exactly to the failed rule.
//!
//! Policy choices applied uniformly across the library:
//! - string lengths are measured in characters;
//! - a "blank" character is an ASCII space, tab, carriage return, or newline;
//! - address alphabets are the ASCII ones of the respective network formats.

use vstd::prelude::*;

use crate::errors::SafeHarborError;
use crate::types::{AccountInScope, BountyTerms, Chain, Contact};

verus! {

/// Longest accepted protocol name, in characters.
pub const MAX_PROTOCOL_NAME_LEN: usize = 100;

/// Most contact entries accepted on one agreement.
pub const MAX_CONTACTS: usize = 10;

/// Longest accepted contact name, in characters.
pub const MAX_CONTACT_NAME_LEN: usize = 50;

/// Longest accepted contact value, in characters.
pub const MAX_CONTACT_INFO_LEN: usize = 100;

/// Longest accepted agreement URI, in characters.
pub const MAX_AGREEMENT_URI_LEN: usize = 200;

/// Most per-network scope entries accepted in one scope list.
pub const MAX_CHAINS: usize = 50;

/// Most covered accounts accepted in one scope entry.
pub const MAX_ACCOUNTS_PER_SCOPE: usize = 100;

// ---------------------------------------------------------------------------
// Character classes
// ---------------------------------------------------------------------------

/// An ASCII whitespace character.
pub open spec fn is_blank_char(c: char) -> bool {
    c == ' ' || c == '\t' || c == '\n' || c == '\r'
}

/// Does the string hold at least one non-whitespace character?
/// This is what "non-empty after trimming" means.
pub open spec fn has_visible_char(s: Seq<char>) -> bool {
    exists|i: int| 0 <= i < s.len() && !is_blank_char(s[i])
}

/// An ASCII decimal digit.
pub open spec fn is_dec_digit(c: char) -> bool {
    48 <= c as int && c as int <= 57
}

/// An ASCII hexadecimal digit.
pub open spec fn is_hex_digit(c: char) -> bool {
    is_dec_digit(c) || (97 <= c as int && c as int <= 102) || (65 <= c as int && c as int <= 70)
}

/// A character of the base-58 alphabet: an ASCII digit or letter other than
/// `0`, `O`, `I`, and `l`.
pub open spec fn is_base58_char(c: char) -> bool {
    ||| (49 <= c as int && c as int <= 57)
    ||| (65 <= c as int && c as int <= 90 && c as int != 73 && c as int != 79)
    ||| (97 <= c as int && c as int <= 122 && c as int != 108)
}

// ---------------------------------------------------------------------------
// Decimal parsing, as Rust's unsigned parser accepts it
// ---------------------------------------------------------------------------

/// The numeric value of a decimal digit character.
pub open spec fn digit_value(c: char) -> nat
    recommends
        is_dec_digit(c),
{
    (c as int - 48) as nat
}

pub open spec fn all_dec_digits(s: Seq<char>) -> bool {
    forall|i: int| 0 <= i < s.len() ==> is_dec_digit(s[i])
}

/// The value of a digit string read in base 10.
pub open spec fn dec_value(s: Seq<char>) -> nat
    decreases s.len(),
{
    if s.len() == 0 {
        0
    } else {
        dec_value(s.drop_last()) * 10 + digit_value(s.last())
    }
}

/// A non-empty digit string whose value fits in a `u64`.
pub open spec fn dec_digits_fit_u64(s: Seq<char>) -> bool {
    s.len() > 0 && all_dec_digits(s) && dec_value(s) <= u64::MAX
}

/// Does the string parse as a `u64`, the way Rust's decimal parser reads it?
/// A single leading `+` is accepted.
pub open spec fn parses_as_u64(s: Seq<char>) -> bool {
    if s.len() > 0 && s[0] == '+' {
        dec_digits_fit_u64(s.subrange(1, s.len() as int))
    } else {
        dec_digits_fit_u64(s)
    }
}

/// A digit string's value only grows as more digits are appended.
proof fn lemma_dec_value_prefix_le(s: Seq<char>, k: int)
    requires
        0 <= k <= s.len(),
    ensures
        dec_value(s.subrange(0, k)) <= dec_value(s),
    decreases s.len() - k,
{
    if k < s.len() {
        lemma_dec_value_prefix_le(s, k + 1);
        let a = s.subrange(0, k);
        let b = s.subrange(0, k + 1);
        assert(b.drop_last() =~= a);
        assert(dec_value(b) == dec_value(a) * 10 + digit_value(s[k]));
        assert(dec_value(a) * 10 >= dec_value(a));
    } else {
        assert(s.subrange(0, k) =~= s);
    }
}

/// Checks whether the characters of `s` from position `from` on form a
/// non-empty digit string whose value fits in a `u64`.
#[verifier::loop_isolation(false)]
pub fn dec_str_fits_u64(s: &str, from: usize) -> (r: bool)
    requires
        from <= s@.len(),
    ensures
        r == dec_digits_fit_u64(s@.subrange(from as int, s@.len() as int)),
{
    let ghost t = s@.subrange(from as int, s@.len() as int);
    let n = s.unicode_len();
    if from == n {
        return false;
    }
    let mut i: usize = from;
    let mut val: u64 = 0;
    while i < n
        invariant
            from <= i <= n,
            n == s@.len(),
            t == s@.subrange(from as int, s@.len() as int),
            all_dec_digits(s@.subrange(from as int, i as int)),
            val == dec_value(s@.subrange(from as int, i as int)),
        decreases n - i,
    {
        let c = s.get_char(i);
        let cv = c as u32;
        if cv < 48 || cv > 57 {
            proof {
                assert(t[i - from] == s@[i as int]);
                assert(!is_dec_digit(t[i - from]));
            }
            return false;
        }
        let d = (cv - 48) as u64;
        let ghost prefix = s@.subrange(from as int, i as int);
        let ghost prefix1 = s@.subrange(from as int, i as int + 1);
        proof {
            assert(prefix1.drop_last() =~= prefix);
            assert(prefix1.last() == s@[i as int]);
            assert(dec_value(prefix1) == dec_value(prefix) * 10 + digit_value(s@[i as int]));
        }
        if val > u64::MAX / 10 || (val == u64::MAX / 10 && d > u64::MAX % 10) {
            proof {
                assert(dec_value(prefix1) > u64::MAX);
                assert(prefix1 =~= t.subrange(0, (i - from) as int + 1));
                lemma_dec_value_prefix_le(t, (i - from) as int + 1);
                assert(dec_value(t) > u64::MAX);
            }
            return false;
        }
        val = val * 10 + d;
        i += 1;
    }
    proof {
        assert(s@.subrange(from as int, i as int) =~= t);
    }
    true
}

// ---------------------------------------------------------------------------
// Network identifiers (CAIP-2)
// ---------------------------------------------------------------------------

/// Index of the first `:` in the string, or its length if there is none.
pub open spec fn first_colon(s: Seq<char>) -> int
    decreases s.len(),
{
    if s.len() == 0 {
        0
    } else if s[0] == ':' {
        0
    } else {
        1 + first_colon(s.subrange(1, s.len() as int))
    }
}

/// The part of a network identifier before its first colon; the whole
/// identifier when it has no colon.
pub open spec fn namespace_of(chain: Seq<char>) -> Seq<char> {
    chain.subrange(0, first_colon(chain))
}

pub proof fn lemma_first_colon_props(s: Seq<char>)
    ensures
        0 <= first_colon(s) <= s.len(),
        first_colon(s) < s.len() ==> s[first_colon(s)] == ':',
        forall|j: int| 0 <= j < first_colon(s) ==> s[j] != ':',
    decreases s.len(),
{
    if s.len() > 0 && s[0] != ':' {
        let t = s.subrange(1, s.len() as int);
        lemma_first_colon_props(t);
        assert forall|j: int| 0 <= j < first_colon(s) implies s[j] != ':' by {
            if j > 0 {
                assert(t[j - 1] == s[j]);
            }
        }
    }
}

pub proof fn lemma_first_colon_at(s: Seq<char>, i: int)
    requires
        0 <= i <= s.len(),
        forall|j: int| 0 <= j < i ==> s[j] != ':',
        i < s.len() ==> s[i] == ':',
    ensures
        first_colon(s) == i,
    decreases s.len(),
{
    if s.len() == 0 {
    } else if s[0] == ':' {
        assert(i == 0);
    } else {
        let t = s.subrange(1, s.len() as int);
        assert(i >= 1);
        assert forall|j: int| 0 <= j < i - 1 implies t[j] != ':' by {
            assert(t[j] == s[j + 1]);
        }
        assert(i - 1 < t.len() ==> t[i - 1] == ':');
        lemma_first_colon_at(t, i - 1);
    }
}

/// Position of the first colon of `s`, or the length of `s` if none.
#[verifier::loop_isolation(false)]
pub fn first_colon_index(s: &str) -> (r: usize)
    ensures
        r == first_colon(s@),
{
    let n = s.unicode_len();
    let mut i: usize = 0;
    while i < n
        invariant
            0 <= i <= n,
            n == s@.len(),
            forall|j: int| 0 <= j < i ==> s@[j] != ':',
        decreases n - i,
    {
        if s.get_char(i) == ':' {
            proof {
                lemma_first_colon_at(s@, i as int);
            }
            return i;
        }
        i += 1;
    }
    proof {
        lemma_first_colon_at(s@, n as int);
    }
    n
}

/// Is the part of `s` before index `fc` exactly `pat`?
#[verifier::loop_isolation(false)]
fn prefix_is(s: &str, fc: usize, pat: &str) -> (r: bool)
    requires
        fc <= s@.len(),
    ensures
        r == (s@.subrange(0, fc as int) == pat@),
{
    let plen = pat.unicode_len();
    if fc != plen {
        proof {
            assert(s@.subrange(0, fc as int).len() != pat@.len());
        }
        return false;
    }
    let mut i: usize = 0;
    while i < fc
        invariant
            0 <= i <= fc,
            fc <= s@.len(),
            fc == pat@.len(),
            forall|j: int| 0 <= j < i ==> s@[j] == pat@[j],
        decreases fc - i,
    {
        if s.get_char(i) != pat.get_char(i) {
            proof {
                assert(s@.subrange(0, fc as int)[i as int] != pat@[i as int]);
            }
            return false;
        }
        i += 1;
    }
    proof {
        assert(s@.subrange(0, fc as int) =~= pat@);
    }
    true
}

/// A well-formed CAIP-2 network identifier: `namespace:reference` with both
/// parts non-empty and exactly one colon; when the namespace is `eip155`,
/// the reference must parse as a `u64`.
pub open spec fn valid_caip2(s: Seq<char>) -> bool {
    let i = first_colon(s);
    &&& 0 < i
    &&& i + 1 < s.len()
    &&& (forall|j: int| i < j < s.len() ==> s[j] != ':')
    &&& (s.subrange(0, i) == "eip155"@ ==> parses_as_u64(s.subrange(i + 1, s.len() as int)))
}

/// Checks that a network identifier is a well-formed CAIP-2 string.
#[verifier::loop_isolation(false)]
pub fn validate_caip2_chain_id(caip2_chain_id: &str) -> (r: Result<(), SafeHarborError>)
    ensures
        r is Ok <==> valid_caip2(caip2_chain_id@),
        r is Err ==> r == Err::<(), SafeHarborError>(SafeHarborError::InvalidNetworkId),
{
    let s = caip2_chain_id;
    let n = s.unicode_len();
    let fc = first_colon_index(s);
    proof {
        lemma_first_colon_props(s@);
    }
    if fc == 0 || fc >= n || fc + 1 >= n {
        return Err(SafeHarborError::InvalidNetworkId);
    }
    // no second colon
    let mut j = fc + 1;
    while j < n
        invariant
            fc + 1 <= j <= n,
            n == s@.len(),
            forall|k: int| fc < k < j ==> s@[k] != ':',
        decreases n - j,
    {
        if s.get_char(j) == ':' {
            return Err(SafeHarborError::InvalidNetworkId);
        }
        j += 1;
    }
    // eip155 references must be unsigned integers
    if prefix_is(s, fc, "eip155") {
        let mut p = fc + 1;
        let c = s.get_char(p);
        if c == '+' {
            p = p + 1;
        }
        let ok = dec_str_fits_u64(s, p);
        proof {
            let suffix = s@.subrange(fc as int + 1, n as int);
            assert(suffix.len() > 0);
            assert(suffix[0] == s@[fc as int + 1]);
            if c == '+' {
                assert(suffix.subrange(1, suffix.len() as int) =~= s@.subrange(
                    fc as int + 2,
                    n as int,
                ));
            }
        }
        if ok {
            Ok(())
        } else {
            Err(SafeHarborError::InvalidNetworkId)
        }
    } else {
        Ok(())
    }
}

// ---------------------------------------------------------------------------
// Account and recovery addresses
// ---------------------------------------------------------------------------

/// The shape of an `eip155` (EVM) address: `0x` plus 40 hexadecimal digits.
pub open spec fn eip155_address(addr: Seq<char>) -> bool {
    &&& addr.len() == 42
    &&& addr[0] == '0'
    &&& addr[1] == 'x'
    &&& (forall|i: int| 2 <= i < 42 ==> is_hex_digit(addr[i]))
}

/// The shape of a `solana` address: 32 to 44 base-58 characters.
pub open spec fn base58_address(addr: Seq<char>) -> bool {
    &&& 32 <= addr.len() <= 44
    &&& (forall|i: int| 0 <= i < addr.len() ==> is_base58_char(addr[i]))
}

/// A non-empty address of the shape its network's namespace prescribes.
/// Namespaces without a prescribed shape accept any non-empty address.
pub open spec fn valid_account_address(addr: Seq<char>, chain: Seq<char>) -> bool {
    &&& addr.len() > 0
    &&& (namespace_of(chain) == "eip155"@ ==> eip155_address(addr))
    &&& (namespace_of(chain) == "solana"@ ==> base58_address(addr))
}

fn is_hex_digit_exec(c: char) -> (r: bool)
    ensures
        r == is_hex_digit(c),
{
    let cv = c as u32;
    (48 <= cv && cv <= 57) || (97 <= cv && cv <= 102) || (65 <= cv && cv <= 70)
}

fn is_base58_char_exec(c: char) -> (r: bool)
    ensures
        r == is_base58_char(c),
{
    let cv = c as u32;
    (49 <= cv && cv <= 57) || (65 <= cv && cv <= 90 && cv != 73 && cv != 79) || (97 <= cv && cv
        <= 122 && cv != 108)
}

/// Checks an account (or recovery) address against the shape its network's
/// namespace prescribes.
#[verifier::loop_isolation(false)]
pub fn validate_account_address(account_address: &str, caip2_chain_id: &str) -> (r: Result<
    (),
    SafeHarborError,
>)
    ensures
        r is Ok <==> valid_account_address(account_address@, caip2_chain_id@),
        r is Err ==> r == Err::<(), SafeHarborError>(SafeHarborError::InvalidAccountParams),
{
    let alen = account_address.unicode_len();
    if alen == 0 {
        return Err(SafeHarborError::InvalidAccountParams);
    }
    let fc = first_colon_index(caip2_chain_id);
    proof {
        lemma_first_colon_props(caip2_chain_id@);
    }
    if prefix_is(caip2_chain_id, fc, "eip155") {
        proof {
            reveal_strlit("eip155");
            reveal_strlit("solana");
            assert("eip155"@[0] == 'e');
            assert("solana"@[0] == 's');
            assert("eip155"@ != "solana"@);
        }
        if alen != 42 || account_address.get_char(0) != '0' || account_address.get_char(1) != 'x' {
            return Err(SafeHarborError::InvalidAccountParams);
        }
        let mut i: usize = 2;
        while i < 42
            invariant
                2 <= i <= 42,
                account_address@.len() == 42,
                forall|j: int| 2 <= j < i ==> is_hex_digit(account_address@[j]),
            decreases 42 - i,
        {
            if !is_hex_digit_exec(account_address.get_char(i)) {
                return Err(SafeHarborError::InvalidAccountParams);
            }
            i += 1;
        }
        Ok(())
    } else if prefix_is(caip2_chain_id, fc, "solana") {
        if alen < 32 || alen > 44 {
            return Err(SafeHarborError::InvalidAccountParams);
        }
        let mut i: usize = 0;
        while i < alen
            invariant
                0 <= i <= alen,
                alen == account_address@.len(),
                forall|j: int| 0 <= j < i ==> is_base58_char(account_address@[j]),
            decreases alen - i,
        {
            if !is_base58_char_exec(account_address.get_char(i)) {
                return Err(SafeHarborError::InvalidAccountParams);
            }
            i += 1;
        }
        Ok(())
    } else {
        Ok(())
    }
}

// ---------------------------------------------------------------------------
// Protocol name, contacts, URI, bounty terms
// ---------------------------------------------------------------------------

/// Does the string hold a visible character? (So: not empty, not blank.)
#[verifier::loop_isolation(false)]
pub fn str_has_visible(s: &str) -> (r: bool)
    ensures
        r == has_visible_char(s@),
{
    let n = s.unicode_len();
    let mut i: usize = 0;
    while i < n
        invariant
            0 <= i <= n,
            n == s@.len(),
            forall|j: int| 0 <= j < i ==> is_blank_char(s@[j]),
        decreases n - i,
    {
        let c = s.get_char(i);
        if !(c == ' ' || c == '\t' || c == '\n' || c == '\r') {
            return true;
        }
        i += 1;
    }
    false
}

/// A protocol name within its length bound that is not empty or blank.
pub open spec fn valid_protocol_name(s: Seq<char>) -> bool {
    s.len() <= MAX_PROTOCOL_NAME_LEN && has_visible_char(s)
}

/// Checks a protocol name.
pub fn validate_protocol_name(protocol_name: &str) -> (r: Result<(), SafeHarborError>)
    ensures
        r is Ok <==> valid_protocol_name(protocol_name@),
        r is Err ==> r == Err::<(), SafeHarborError>(SafeHarborError::InvalidProtocolName),
{
    if protocol_name.unicode_len() > MAX_PROTOCOL_NAME_LEN {
        return Err(SafeHarborError::InvalidProtocolName);
    }
    if !str_has_visible(protocol_name) {
        return Err(SafeHarborError::InvalidProtocolName);
    }
    Ok(())
}

/// A contact entry whose name and value are non-blank and within bounds.
pub open spec fn valid_contact(c: Contact) -> bool {
    &&& has_visible_char(c.name@)
    &&& c.name@.len() <= MAX_CONTACT_NAME_LEN
    &&& has_visible_char(c.contact@)
    &&& c.contact@.len() <= MAX_CONTACT_INFO_LEN
}

/// A non-empty contact list within its count bound, all entries valid.
pub open spec fn valid_contact_details(cs: Seq<Contact>) -> bool {
    &&& 0 < cs.len() <= MAX_CONTACTS
    &&& (forall|i: int| 0 <= i < cs.len() ==> valid_contact(cs[i]))
}

/// Checks a contact list.
#[verifier::loop_isolation(false)]
pub fn validate_contact_details(contact_details: &Vec<Contact>) -> (r: Result<
    (),
    SafeHarborError,
>)
    ensures
        r is Ok <==> valid_contact_details(contact_details@),
        r is Err ==> r == Err::<(), SafeHarborError>(SafeHarborError::InvalidContactDetails),
{
    if contact_details.len() == 0 || contact_details.len() > MAX_CONTACTS {
        return Err(SafeHarborError::InvalidContactDetails);
    }
    let mut i: usize = 0;
    while i < contact_details.len()
        invariant
            0 <= i <= contact_details@.len(),
            forall|j: int| 0 <= j < i ==> valid_contact(contact_details@[j]),
        decreases contact_details@.len() - i,
    {
        let c = &contact_details[i];
        if !str_has_visible(c.name.as_str()) || c.name.as_str().unicode_len()
            > MAX_CONTACT_NAME_LEN {
            return Err(SafeHarborError::InvalidContactDetails);
        }
        if !str_has_visible(c.contact.as_str()) || c.contact.as_str().unicode_len()
            > MAX_CONTACT_INFO_LEN {
            return Err(SafeHarborError::InvalidContactDetails);
        }
        i += 1;
    }
    Ok(())
}

/// Does `s` start with `prefix`?
#[verifier::loop_isolation(false)]
pub fn str_has_prefix(s: &str, prefix: &str) -> (r: bool)
    ensures
        r == prefix@.is_prefix_of(s@),
{
    let plen = prefix.unicode_len();
    let slen = s.unicode_len();
    if plen > slen {
        return false;
    }
    let mut i: usize = 0;
    while i < plen
        invariant
            0 <= i <= plen,
            plen == prefix@.len(),
            plen <= s@.len(),
            forall|j: int| 0 <= j < i ==> s@[j] == prefix@[j],
        decreases plen - i,
    {
        if s.get_char(i) != prefix.get_char(i) {
            proof {
                assert(s@.subrange(0, plen as int)[i as int] != prefix@[i as int]);
            }
            return false;
        }
        i += 1;
    }
    proof {
        assert(prefix@ =~= s@.subrange(0, plen as int));
    }
    true
}

/// Are the two strings equal character for character?
#[verifier::loop_isolation(false)]
pub fn str_eq(a: &str, b: &str) -> (r: bool)
    ensures
        r == (a@ == b@),
{
    let alen = a.unicode_len();
    let blen = b.unicode_len();
    if alen != blen {
        return false;
    }
    let mut i: usize = 0;
    while i < alen
        invariant
            0 <= i <= alen,
            alen == a@.len() == b@.len(),
            forall|j: int| 0 <= j < i ==> a@[j] == b@[j],
        decreases alen - i,
    {
        if a.get_char(i) != b.get_char(i) {
            return false;
        }
        i += 1;
    }
    proof {
        assert(a@ =~= b@);
    }
    true
}

/// One of the accepted URI schemes stands at the front of the string.
pub open spec fn accepted_uri_scheme(s: Seq<char>) -> bool {
    ||| "ipfs://"@.is_prefix_of(s)
    ||| "https://"@.is_prefix_of(s)
    ||| "http://"@.is_prefix_of(s)
    ||| "ar://"@.is_prefix_of(s)
}

/// An agreement URI within its length bound; when non-empty it must begin
/// with an accepted scheme.
pub open spec fn valid_agreement_uri(s: Seq<char>) -> bool {
    s.len() <= MAX_AGREEMENT_URI_LEN && (s.len() > 0 ==> accepted_uri_scheme(s))
}

/// Checks an agreement URI.
pub fn validate_agreement_uri(agreement_uri: &str) -> (r: Result<(), SafeHarborError>)
    ensures
        r is Ok <==> valid_agreement_uri(agreement_uri@),
        r is Err ==> r == Err::<(), SafeHarborError>(SafeHarborError::InvalidAgreementUri),
{
    let n = agreement_uri.unicode_len();
    if n > MAX_AGREEMENT_URI_LEN {
        return Err(SafeHarborError::InvalidAgreementUri);
    }
    if n == 0 {
        return Ok(());
    }
    if str_has_prefix(agreement_uri, "ipfs://") || str_has_prefix(agreement_uri, "https://")
        || str_has_prefix(agreement_uri, "http://") || str_has_prefix(agreement_uri, "ar://") {
        Ok(())
    } else {
        Err(SafeHarborError::InvalidAgreementUri)
    }
}

/// The exact outcome of checking bounty terms, first failed rule first:
/// the percentage is at most 100; the per-incident cap is nonzero; an
/// aggregate cap, when set, is at least the per-incident cap; a set
/// aggregate cap and the retainable flag cannot both hold.
pub open spec fn check_bounty_terms(t: BountyTerms) -> Result<(), SafeHarborError> {
    if t.bounty_percentage > 100 {
        Err(SafeHarborError::InvalidBountyPercentage)
    } else if t.bounty_cap_usd == 0 {
        Err(SafeHarborError::InvalidBountyCap)
    } else if t.aggregate_bounty_cap_usd != 0 && t.aggregate_bounty_cap_usd < t.bounty_cap_usd {
        Err(SafeHarborError::InvalidAggregateBountyCap)
    } else if t.aggregate_bounty_cap_usd != 0 && t.retainable {
        Err(SafeHarborError::ConflictingRetainableAndAggregateCap)
    } else {
        Ok(())
    }
}

pub open spec fn valid_bounty_terms(t: BountyTerms) -> bool {
    check_bounty_terms(t) is Ok
}

/// Checks bounty terms.
pub fn validate_bounty_terms(bounty_terms: &BountyTerms) -> (r: Result<(), SafeHarborError>)
    ensures
        r == check_bounty_terms(*bounty_terms),
{
    if bounty_terms.bounty_percentage > 100 {
        return Err(SafeHarborError::InvalidBountyPercentage);
    }
    if bounty_terms.bounty_cap_usd == 0 {
        return Err(SafeHarborError::InvalidBountyCap);
    }
    if bounty_terms.aggregate_bounty_cap_usd != 0 && bounty_terms.aggregate_bounty_cap_usd
        < bounty_terms.bounty_cap_usd {
        return Err(SafeHarborError::InvalidAggregateBountyCap);
    }
    if bounty_terms.aggregate_bounty_cap_usd != 0 && bounty_terms.retainable {
        return Err(SafeHarborError::ConflictingRetainableAndAggregateCap);
    }
    Ok(())
}

/// A bounty percentage of at most 100 is never rejected for its percentage;
/// one above 100 is rejected with exactly the percentage error.
pub proof fn lemma_bounty_percentage_rule(t: BountyTerms)
    ensures
        check_bounty_terms(t) == Err::<(), SafeHarborError>(
            SafeHarborError::InvalidBountyPercentage,
        ) <==> t.bounty_percentage > 100,
{
}

/// Terms with a nonzero aggregate cap and the retainable flag set are
/// rejected, whatever the other fields hold.
pub proof fn lemma_retainable_aggregate_conflict(t: BountyTerms)
    requires
        t.aggregate_bounty_cap_usd != 0,
        t.retainable,
    ensures
        check_bounty_terms(t) is Err,
{
}

// ---------------------------------------------------------------------------
// Scope lists
// ---------------------------------------------------------------------------

/// No two entries of the list carry the same account address.
pub open spec fn no_dup_addresses(s: Seq<AccountInScope>) -> bool {
    forall|i: int, j: int|
        0 <= i < j < s.len() ==> s[i].account_address@ != s[j].account_address@
}

/// A non-empty account list within its count bound, each address of the
/// network's shape, no address listed twice.
pub open spec fn valid_accounts(s: Seq<AccountInScope>, chain: Seq<char>) -> bool {
    &&& 0 < s.len() <= MAX_ACCOUNTS_PER_SCOPE
    &&& (forall|i: int| 0 <= i < s.len() ==> valid_account_address(s[i].account_address@, chain))
    &&& no_dup_addresses(s)
}

/// Checks the account list of one scope entry.
#[verifier::loop_isolation(false)]
pub fn validate_accounts(accounts: &Vec<AccountInScope>, caip2_chain_id: &str) -> (r: Result<
    (),
    SafeHarborError,
>)
    ensures
        r is Ok <==> valid_accounts(accounts@, caip2_chain_id@),
        r is Err ==> r == Err::<(), SafeHarborError>(SafeHarborError::InvalidAccountParams),
{
    if accounts.len() == 0 || accounts.len() > MAX_ACCOUNTS_PER_SCOPE {
        return Err(SafeHarborError::InvalidAccountParams);
    }
    let mut i: usize = 0;
    while i < accounts.len()
        invariant
            0 <= i <= accounts@.len(),
            forall|k: int|
                0 <= k < i ==> valid_account_address(
                    accounts@[k].account_address@,
                    caip2_chain_id@,
                ),
            forall|k: int, j: int|
                0 <= k < j < i ==> accounts@[k].account_address@ != accounts@[j].account_address@,
        decreases accounts@.len() - i,
    {
        if validate_account_address(accounts[i].account_address.as_str(), caip2_chain_id).is_err() {
            return Err(SafeHarborError::InvalidAccountParams);
        }
        let mut j: usize = 0;
        while j < i
            invariant
                0 <= j <= i < accounts@.len(),
                forall|k: int|
                    0 <= k < j ==> accounts@[k].account_address@ != accounts@[i as int].account_address@,
            decreases i - j,
        {
            if accounts[j].account_address == accounts[i].account_address {
                return Err(SafeHarborError::InvalidAccountParams);
            }
            j += 1;
        }
        i += 1;
    }
    Ok(())
}

/// The exact outcome of checking the scope entries from position `k` on,
/// first failed entry first. Each entry's own checks run in order: network
/// identifier shape, uniqueness against earlier entries, recovery address
/// shape, account list.
pub open spec fn check_chain_entries(cs: Seq<Chain>, k: int) -> Result<(), SafeHarborError>
    decreases cs.len() - k,
{
    if k < 0 || k >= cs.len() {
        Ok(())
    } else {
        let c = cs[k];
        if !valid_caip2(c.caip2_chain_id@) {
            Err(SafeHarborError::InvalidNetworkId)
        } else if exists|j: int| 0 <= j < k && cs[j].caip2_chain_id@ == c.caip2_chain_id@ {
            Err(SafeHarborError::DuplicateNetworkId)
        } else if !valid_account_address(c.asset_recovery_address@, c.caip2_chain_id@) {
            Err(SafeHarborError::InvalidAccountParams)
        } else if !valid_accounts(c.accounts@, c.caip2_chain_id@) {
            Err(SafeHarborError::InvalidAccountParams)
        } else {
            check_chain_entries(cs, k + 1)
        }
    }
}

/// The exact outcome of checking a whole scope list: it must be non-empty
/// and within its count bound, and every entry must pass its checks.
pub open spec fn check_chains(cs: Seq<Chain>) -> Result<(), SafeHarborError> {
    if cs.len() == 0 {
        Err(SafeHarborError::InvalidNetworkId)
    } else if cs.len() > MAX_CHAINS {
        Err(SafeHarborError::FieldLengthExceeded)
    } else {
        check_chain_entries(cs, 0)
    }
}

/// Checks a whole scope list.
#[verifier::loop_isolation(false)]
pub fn validate_chains(chains: &Vec<Chain>) -> (r: Result<(), SafeHarborError>)
    ensures
        r == check_chains(chains@),
{
    if chains.len() == 0 {
        return Err(SafeHarborError::InvalidNetworkId);
    }
    if chains.len() > MAX_CHAINS {
        return Err(SafeHarborError::FieldLengthExceeded);
    }
    let mut i: usize = 0;
    while i < chains.len()
        invariant
            0 <= i <= chains@.len(),
            check_chain_entries(chains@, 0) == check_chain_entries(chains@, i as int),
        decreases chains@.len() - i,
    {
        let c = &chains[i];
        if validate_caip2_chain_id(c.caip2_chain_id.as_str()).is_err() {
            return Err(SafeHarborError::InvalidNetworkId);
        }
        let mut j: usize = 0;
        while j < i
            invariant
                0 <= j <= i < chains@.len(),
                forall|k: int|
                    0 <= k < j ==> chains@[k].caip2_chain_id@ != chains@[i as int].caip2_chain_id@,
            decreases i - j,
        {
            if chains[j].caip2_chain_id == chains[i].caip2_chain_id {
                return Err(SafeHarborError::DuplicateNetworkId);
            }
            j += 1;
        }
        if validate_account_address(
            c.asset_recovery_address.as_str(),
            c.caip2_chain_id.as_str(),
        ).is_err() {
            return Err(SafeHarborError::InvalidAccountParams);
        }
        if validate_accounts(&c.accounts, c.caip2_chain_id.as_str()).is_err() {
            return Err(SafeHarborError::InvalidAccountParams);
        }
        i += 1;
    }
    Ok(())
}

} // verus!
