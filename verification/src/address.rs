//! Deterministic record addressing.
//!
//! A record's address is derived from a fixed namespace tag plus an ordered
//! list of seed components under the program's id. A seed component is
//! capped at 32 bytes by the host, so a long network identifier enters the
//! seed list as its SHA-256 digest; the mutation that accepts such an
//! identifier recomputes the digest from the plaintext and rejects the call
//! when it disagrees with the caller-supplied one.

use vstd::prelude::*;
use vstd::bytes::{spec_u64_to_le_bytes, u64_to_le_bytes};
use vstd::slice::slice_to_vec;
use vstd::string::StringSliceAdditionalSpecFns;
use vstd::string::StrSliceExecFns;

use crate::types::Identity;

verus! {

/// The SHA-256 digest, 32 bytes, of the UTF-8 encoding of a string.
pub uninterp spec fn sha256_of(s: Seq<char>) -> Seq<u8>;

/// Relies on `anchor_lang::solana_program::hash::hash`, the SHA-256 of the
/// given bytes: the 32-byte digest depends on the input alone.
#[verifier::external_body]
fn sha256_hash(s: &str) -> (r: [u8; 32])
    ensures
        r@ == sha256_of(s@),
{
    anchor_lang::solana_program::hash::hash(s.as_bytes()).to_bytes()
}

/// The seed digest of a network identifier, as adoption-record seeds and
/// their callers must compute it.
pub fn chain_id_hash(chain_id: &str) -> (r: [u8; 32])
    ensures
        r@ == sha256_of(chain_id@),
{
    sha256_hash(chain_id)
}

/// The derived address and disambiguation bump for a seed list under a
/// program id, or nothing when no bump yields a valid derived address.
pub uninterp spec fn pda_of(seeds: Seq<Seq<u8>>, program_id: Seq<u8>) -> Option<(Seq<u8>, u8)>;

/// Does a concrete derivation result agree with the abstract one?
pub open spec fn pda_result_matches(r: Option<([u8; 32], u8)>, a: Option<(Seq<u8>, u8)>) -> bool {
    match r {
        Some(p) => a == Some((p.0@, p.1)),
        None => a is None,
    }
}

/// Relies on `Pubkey::try_find_program_address`: the derived address and
/// bump depend on the seed list and program id alone; the search returns
/// nothing when no bump yields a valid address or a precondition of the
/// derivation (seed count, seed length) is violated, and never panics.
#[verifier::external_body]
fn try_find_pda(seeds: &Vec<Vec<u8>>, program_id: &[u8; 32]) -> (r: Option<([u8; 32], u8)>)
    ensures
        pda_result_matches(r, pda_of(seeds@.map_values(|s: Vec<u8>| s@), program_id@)),
{
    let refs: Vec<&[u8]> = seeds.iter().map(|s| s.as_slice()).collect();
    let pid = anchor_lang::prelude::Pubkey::new_from_array(*program_id);
    anchor_lang::prelude::Pubkey::try_find_program_address(&refs, &pid).map(
        |p: (anchor_lang::prelude::Pubkey, u8)| (p.0.to_bytes(), p.1),
    )
}

/// The registry record's seed tag.
pub open spec fn registry_seed() -> Seq<u8> {
    ("registry_v2").spec_bytes()
}

/// The agreement record's seed tag.
pub open spec fn agreement_seed() -> Seq<u8> {
    ("agreement_v2").spec_bytes()
}

/// The per-network adoption record's seed tag.
pub open spec fn adopt_seed() -> Seq<u8> {
    ("adopt_v2").spec_bytes()
}

/// The adopter-to-agreement adoption record's seed tag.
pub open spec fn adoption_seed() -> Seq<u8> {
    ("adoption_v2").spec_bytes()
}

/// The adoption-head record's seed tag.
pub open spec fn adoption_head_seed() -> Seq<u8> {
    ("adoption_head").spec_bytes()
}

/// Address of the singleton registry record: seed table row
/// `[registry tag]`.
pub fn find_registry_pda(program_id: &[u8; 32]) -> (r: Option<([u8; 32], u8)>)
    ensures
        pda_result_matches(r, pda_of(seq![registry_seed()], program_id@)),
{
    let mut seeds: Vec<Vec<u8>> = Vec::new();
    seeds.push(("registry_v2").as_bytes_vec());
    proof {
        assert(seeds@.map_values(|s: Vec<u8>| s@) =~= seq![registry_seed()]);
    }
    try_find_pda(&seeds, program_id)
}

/// Address of an agreement record: seed table row
/// `[agreement tag, creator, nonce]`, the nonce as little-endian bytes so
/// one creator can hold several agreements.
pub fn find_agreement_pda(creator: &Identity, init_nonce: u64, program_id: &[u8; 32]) -> (r:
    Option<([u8; 32], u8)>)
    ensures
        pda_result_matches(
            r,
            pda_of(
                seq![agreement_seed(), creator@, spec_u64_to_le_bytes(init_nonce)],
                program_id@,
            ),
        ),
{
    let mut seeds: Vec<Vec<u8>> = Vec::new();
    seeds.push(("agreement_v2").as_bytes_vec());
    seeds.push(slice_to_vec(creator.bytes.as_slice()));
    seeds.push(u64_to_le_bytes(init_nonce));
    proof {
        assert(seeds@.map_values(|s: Vec<u8>| s@) =~= seq![
            agreement_seed(),
            creator@,
            spec_u64_to_le_bytes(init_nonce),
        ]);
    }
    try_find_pda(&seeds, program_id)
}

/// Address of a per-network adoption record: seed table row
/// `[adopt tag, adopter, sha256(network id)]`. The digest keeps long
/// network identifiers within the host's per-seed size cap.
pub fn find_chain_adoption_pda(
    adopter: &Identity,
    chain_id_hash: &[u8; 32],
    program_id: &[u8; 32],
) -> (r: Option<([u8; 32], u8)>)
    ensures
        pda_result_matches(
            r,
            pda_of(seq![adopt_seed(), adopter@, chain_id_hash@], program_id@),
        ),
{
    let mut seeds: Vec<Vec<u8>> = Vec::new();
    seeds.push(("adopt_v2").as_bytes_vec());
    seeds.push(slice_to_vec(adopter.bytes.as_slice()));
    seeds.push(slice_to_vec(chain_id_hash.as_slice()));
    proof {
        assert(seeds@.map_values(|s: Vec<u8>| s@) =~= seq![
            adopt_seed(),
            adopter@,
            chain_id_hash@,
        ]);
    }
    try_find_pda(&seeds, program_id)
}

/// Address of the record linking one adopter to one agreement: seed table
/// row `[adoption tag, adopter, agreement]`.
pub fn find_adoption_pda(adopter: &Identity, agreement: &Identity, program_id: &[u8; 32]) -> (r:
    Option<([u8; 32], u8)>)
    ensures
        pda_result_matches(
            r,
            pda_of(seq![adoption_seed(), adopter@, agreement@], program_id@),
        ),
{
    let mut seeds: Vec<Vec<u8>> = Vec::new();
    seeds.push(("adoption_v2").as_bytes_vec());
    seeds.push(slice_to_vec(adopter.bytes.as_slice()));
    seeds.push(slice_to_vec(agreement.bytes.as_slice()));
    proof {
        assert(seeds@.map_values(|s: Vec<u8>| s@) =~= seq![
            adoption_seed(),
            adopter@,
            agreement@,
        ]);
    }
    try_find_pda(&seeds, program_id)
}

/// Address of an adopter's single adoption-head record: seed table row
/// `[adoption-head tag, adopter]`.
pub fn find_adoption_head_pda(adopter: &Identity, program_id: &[u8; 32]) -> (r: Option<
    ([u8; 32], u8),
>)
    ensures
        pda_result_matches(r, pda_of(seq![adoption_head_seed(), adopter@], program_id@)),
{
    let mut seeds: Vec<Vec<u8>> = Vec::new();
    seeds.push(("adoption_head").as_bytes_vec());
    seeds.push(slice_to_vec(adopter.bytes.as_slice()));
    proof {
        assert(seeds@.map_values(|s: Vec<u8>| s@) =~= seq![adoption_head_seed(), adopter@]);
    }
    try_find_pda(&seeds, program_id)
}

} // verus!
