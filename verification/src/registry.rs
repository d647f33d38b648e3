//! The global registry: its owning authority, the recognized-network set,
//! and the adopter-to-agreement index.
//!
//! Mutations other than initialization require the caller to be the owner.
//! Every mutation is all-or-nothing: a failed operation leaves the registry
//! exactly as it was.

use vstd::prelude::*;

use crate::account_map::AccountMap;
use crate::errors::SafeHarborError;
use crate::types::Identity;
use crate::validation::str_eq;

verus! {

/// Most network identifiers the registry recognizes at once.
pub const MAX_RECOGNIZED_NETWORKS: usize = 32;

/// Longest accepted network identifier, in characters.
pub const MAX_NETWORK_ID_LEN: usize = 64;

/// Most adopter entries the agreement index holds at once.
pub const MAX_AGREEMENT_ENTRIES: usize = 64;

/// The views of a sequence of strings.
pub open spec fn str_views(v: Seq<String>) -> Seq<Seq<char>> {
    v.map_values(|s: String| s@)
}

/// Is `x` one of the strings of `vs`?
pub open spec fn seq_contains_str(vs: Seq<Seq<char>>, x: Seq<char>) -> bool {
    exists|i: int| 0 <= i < vs.len() && vs[i] == x
}

/// No string appears twice.
pub open spec fn distinct_strs(vs: Seq<Seq<char>>) -> bool {
    forall|i: int, j: int| 0 <= i < j < vs.len() ==> vs[i] != vs[j]
}

/// The recognized set after the idempotent, order-preserving union insert
/// of `new`: each identifier is appended only if not already present.
pub open spec fn add_networks(cur: Seq<Seq<char>>, new: Seq<Seq<char>>) -> Seq<Seq<char>>
    decreases new.len(),
{
    if new.len() == 0 {
        cur
    } else {
        let cur2 = if seq_contains_str(cur, new[0]) {
            cur
        } else {
            cur.push(new[0])
        };
        add_networks(cur2, new.drop_first())
    }
}

/// The recognized set after removing every identifier of `del`.
pub open spec fn remove_networks(cur: Seq<Seq<char>>, del: Seq<Seq<char>>) -> Seq<Seq<char>> {
    cur.filter(|s: Seq<char>| !seq_contains_str(del, s))
}

/// Whatever is in `cur` is still in the union.
proof fn lemma_add_networks_keeps(cur: Seq<Seq<char>>, new: Seq<Seq<char>>, x: Seq<char>)
    requires
        seq_contains_str(cur, x),
    ensures
        seq_contains_str(add_networks(cur, new), x),
    decreases new.len(),
{
    if new.len() > 0 {
        let cur2 = if seq_contains_str(cur, new[0]) {
            cur
        } else {
            cur.push(new[0])
        };
        if !seq_contains_str(cur, new[0]) {
            let i = choose|i: int| 0 <= i < cur.len() && cur[i] == x;
            assert(cur2[i] == x);
        }
        lemma_add_networks_keeps(cur2, new.drop_first(), x);
    }
}

/// Every inserted identifier is in the union.
proof fn lemma_add_networks_has_new(cur: Seq<Seq<char>>, new: Seq<Seq<char>>, k: int)
    requires
        0 <= k < new.len(),
    ensures
        seq_contains_str(add_networks(cur, new), new[k]),
    decreases new.len(),
{
    let cur2 = if seq_contains_str(cur, new[0]) {
        cur
    } else {
        cur.push(new[0])
    };
    if k == 0 {
        if seq_contains_str(cur, new[0]) {
            lemma_add_networks_keeps(cur2, new.drop_first(), new[0]);
        } else {
            assert(cur2[cur.len() as int] == new[0]);
            lemma_add_networks_keeps(cur2, new.drop_first(), new[0]);
        }
    } else {
        assert(new.drop_first()[k - 1] == new[k]);
        lemma_add_networks_has_new(cur2, new.drop_first(), k - 1);
    }
}

/// Inserting identifiers that are all already present changes nothing.
proof fn lemma_add_networks_noop(cur: Seq<Seq<char>>, new: Seq<Seq<char>>)
    requires
        forall|k: int| 0 <= k < new.len() ==> seq_contains_str(cur, new[k]),
    ensures
        add_networks(cur, new) == cur,
    decreases new.len(),
{
    if new.len() > 0 {
        assert(seq_contains_str(cur, new[0]));
        assert(forall|k: int|
            0 <= k < new.drop_first().len() ==> #[trigger] new.drop_first()[k] == new[k + 1]);
        lemma_add_networks_noop(cur, new.drop_first());
    }
}

/// The union insert is idempotent: inserting the same identifiers a second
/// time leaves the recognized set exactly as after the first insert.
pub proof fn lemma_add_networks_idempotent(cur: Seq<Seq<char>>, new: Seq<Seq<char>>)
    ensures
        add_networks(add_networks(cur, new), new) == add_networks(cur, new),
{
    let r = add_networks(cur, new);
    assert forall|k: int| 0 <= k < new.len() implies seq_contains_str(r, new[k]) by {
        lemma_add_networks_has_new(cur, new, k);
    }
    lemma_add_networks_noop(r, new);
}

/// The singleton registry record.
#[derive(Clone, Debug)]
pub struct Registry {
    /// The account authorized to mutate the recognized-network set.
    pub owner: Identity,
    /// True once `owner` has been set.
    pub initialized: bool,
    /// The recognized network identifiers, without duplicates.
    pub valid_chains: Vec<String>,
    /// Which agreement each adopter most recently adopted.
    pub agreements: AccountMap,
}

impl Registry {
    /// The views of the recognized network identifiers.
    pub open spec fn networks(&self) -> Seq<Seq<char>> {
        str_views(self.valid_chains@)
    }

    /// The registry's invariant: recognized identifiers are unique, bounded
    /// in count and length; the agreement index is well formed and bounded.
    pub open spec fn wf(&self) -> bool {
        &&& distinct_strs(self.networks())
        &&& self.networks().len() <= MAX_RECOGNIZED_NETWORKS
        &&& (forall|i: int|
            0 <= i < self.networks().len() ==> #[trigger] self.networks()[i].len()
                <= MAX_NETWORK_ID_LEN)
        &&& self.agreements.wf()
        &&& self.agreements.items@.len() <= MAX_AGREEMENT_ENTRIES
    }

    /// A fresh, uninitialized registry.
    pub fn new() -> (r: Registry)
        ensures
            r.wf(),
            r.owner@ == Identity::default_spec(),
            !r.initialized,
            r.networks().len() == 0,
            r.agreements.items@.len() == 0,
    {
        let r = Registry {
            owner: Identity::zero(),
            initialized: false,
            valid_chains: Vec::new(),
            agreements: AccountMap::new(),
        };
        proof {
            assert(r.networks() =~= Seq::<Seq<char>>::empty());
        }
        r
    }

    /// Succeeds exactly when the registry is initialized and `caller` is its
    /// owner.
    pub fn validate_owner(&self, caller: &Identity) -> (r: Result<(), SafeHarborError>)
        ensures
            r is Ok <==> (self.initialized && self.owner@ == caller@),
            r == Err::<(), SafeHarborError>(SafeHarborError::RegistryNotInitialized)
                <==> !self.initialized,
            r == Err::<(), SafeHarborError>(SafeHarborError::NotRegistryOwner) <==> (
            self.initialized && self.owner@ != caller@),
    {
        if !self.initialized {
            return Err(SafeHarborError::RegistryNotInitialized);
        }
        if !(self.owner == *caller) {
            return Err(SafeHarborError::NotRegistryOwner);
        }
        Ok(())
    }

    /// Is the identifier in the recognized set?
    #[verifier::loop_isolation(false)]
    pub fn is_chain_valid(&self, chain_id: &str) -> (r: bool)
        ensures
            r == seq_contains_str(self.networks(), chain_id@),
    {
        let mut i: usize = 0;
        while i < self.valid_chains.len()
            invariant
                0 <= i <= self.valid_chains@.len(),
                forall|j: int| 0 <= j < i ==> self.valid_chains@[j]@ != chain_id@,
            decreases self.valid_chains@.len() - i,
        {
            if str_eq(self.valid_chains[i].as_str(), chain_id) {
                proof {
                    assert(self.networks()[i as int] == chain_id@);
                }
                return true;
            }
            i += 1;
        }
        proof {
            assert forall|j: int| 0 <= j < self.networks().len() implies self.networks()[j]
                != chain_id@ by {
                assert(self.networks()[j] == self.valid_chains@[j]@);
            }
        }
        false
    }

    /// Succeeds exactly when the identifier is non-empty and recognized.
    pub fn validate_chain_id(&self, chain_id: &str) -> (r: Result<(), SafeHarborError>)
        ensures
            r is Ok <==> (chain_id@.len() > 0 && seq_contains_str(self.networks(), chain_id@)),
            r == Err::<(), SafeHarborError>(SafeHarborError::InvalidNetworkId) <==> chain_id@.len()
                == 0,
            r == Err::<(), SafeHarborError>(SafeHarborError::NetworkNotRecognized) <==> (
            chain_id@.len() > 0 && !seq_contains_str(self.networks(), chain_id@)),
    {
        if chain_id.unicode_len() == 0 {
            return Err(SafeHarborError::InvalidNetworkId);
        }
        if !self.is_chain_valid(chain_id) {
            return Err(SafeHarborError::NetworkNotRecognized);
        }
        Ok(())
    }

    /// The recognized set extended by the union insert of `chain_ids`, if
    /// every identifier is within its length bound and the result is within
    /// the count bound. Touches nothing.
    #[verifier::loop_isolation(false)]
    fn union_networks(&self, chain_ids: &Vec<String>) -> (r: Result<Vec<String>, SafeHarborError>)
        requires
            self.wf(),
        ensures
            match r {
                Ok(v) => {
                    &&& str_views(v@) == add_networks(self.networks(), str_views(chain_ids@))
                    &&& distinct_strs(str_views(v@))
                    &&& str_views(v@).len() <= MAX_RECOGNIZED_NETWORKS
                    &&& (forall|i: int|
                        0 <= i < v@.len() ==> #[trigger] v@[i]@.len() <= MAX_NETWORK_ID_LEN)
                    &&& (forall|k: int|
                        0 <= k < chain_ids@.len() ==> #[trigger] chain_ids@[k]@.len()
                            <= MAX_NETWORK_ID_LEN)
                },
                Err(e) => {
                    &&& (e == SafeHarborError::InvalidNetworkId <==> exists|k: int|
                        0 <= k < chain_ids@.len() && #[trigger] chain_ids@[k]@.len()
                            > MAX_NETWORK_ID_LEN)
                    &&& (e == SafeHarborError::FieldLengthExceeded ==> add_networks(
                        self.networks(),
                        str_views(chain_ids@),
                    ).len() > MAX_RECOGNIZED_NETWORKS)
                    &&& (e == SafeHarborError::InvalidNetworkId || e
                        == SafeHarborError::FieldLengthExceeded)
                },
            },
            r is Ok <==> ((forall|k: int|
                0 <= k < chain_ids@.len() ==> #[trigger] chain_ids@[k]@.len()
                    <= MAX_NETWORK_ID_LEN) && add_networks(
                self.networks(),
                str_views(chain_ids@),
            ).len() <= MAX_RECOGNIZED_NETWORKS),
    {
        let ghost new_views = str_views(chain_ids@);
        // length bound on every identifier first
        let mut k: usize = 0;
        while k < chain_ids.len()
            invariant
                0 <= k <= chain_ids@.len(),
                forall|j: int| 0 <= j < k ==> #[trigger] chain_ids@[j]@.len() <= MAX_NETWORK_ID_LEN,
            decreases chain_ids@.len() - k,
        {
            if chain_ids[k].as_str().unicode_len() > MAX_NETWORK_ID_LEN {
                return Err(SafeHarborError::InvalidNetworkId);
            }
            k += 1;
        }
        // order-preserving union insert into a scratch copy
        let mut result: Vec<String> = Vec::new();
        let mut i: usize = 0;
        while i < self.valid_chains.len()
            invariant
                0 <= i <= self.valid_chains@.len(),
                result@.len() == i,
                forall|j: int| 0 <= j < i ==> #[trigger] result@[j]@ == self.valid_chains@[j]@,
            decreases self.valid_chains@.len() - i,
        {
            let s = self.valid_chains[i].clone();
            result.push(s);
            i += 1;
        }
        proof {
            assert(str_views(result@) =~= self.networks());
            assert(new_views.subrange(0, 0) =~= Seq::<Seq<char>>::empty());
            assert(add_networks(self.networks(), new_views.subrange(0, 0)) == self.networks());
            assert forall|i: int| 0 <= i < result@.len() implies #[trigger] result@[i]@.len()
                <= MAX_NETWORK_ID_LEN by {
                assert(self.networks()[i] == self.valid_chains@[i]@);
            }
        }
        let mut k: usize = 0;
        while k < chain_ids.len()
            invariant
                0 <= k <= chain_ids@.len(),
                str_views(result@) == add_networks(self.networks(), new_views.subrange(0, k as int)),
                distinct_strs(str_views(result@)),
                forall|i: int| 0 <= i < result@.len() ==> #[trigger] result@[i]@.len() <= MAX_NETWORK_ID_LEN,
                forall|j: int| 0 <= j < chain_ids@.len() ==> #[trigger] chain_ids@[j]@.len() <= MAX_NETWORK_ID_LEN,
                new_views == str_views(chain_ids@),
            decreases chain_ids@.len() - k,
        {
            let ghost pre = result@;
            let mut present = false;
            let mut j: usize = 0;
            while j < result.len()
                invariant
                    0 <= j <= result@.len(),
                    present ==> seq_contains_str(str_views(result@), chain_ids@[k as int]@),
                    !present ==> (forall|t: int|
                        0 <= t < j ==> #[trigger] result@[t]@ != chain_ids@[k as int]@),
                    result@ == pre,
                    k < chain_ids@.len(),
                decreases result@.len() - j,
            {
                if str_eq(result[j].as_str(), chain_ids[k].as_str()) {
                    proof {
                        assert(str_views(result@)[j as int] == chain_ids@[k as int]@);
                    }
                    present = true;
                }
                j += 1;
            }
            proof {
                if !present {
                    assert forall|t: int|
                        0 <= t < str_views(result@).len() implies str_views(result@)[t]
                        != chain_ids@[k as int]@ by {
                        assert(str_views(result@)[t] == result@[t]@);
                    }
                }
            }
            if !present {
                let s = chain_ids[k].clone();
                result.push(s);
                proof {
                    assert(str_views(result@) =~= str_views(pre).push(chain_ids@[k as int]@));
                }
            }
            proof {
                let prefix = new_views.subrange(0, k as int);
                let prefix1 = new_views.subrange(0, k as int + 1);
                assert(prefix1.drop_last() =~= prefix);
                lemma_add_networks_snoc(self.networks(), prefix, chain_ids@[k as int]@);
                assert(prefix1 =~= prefix.push(chain_ids@[k as int]@));
            }
            k += 1;
        }
        proof {
            assert(new_views.subrange(0, chain_ids@.len() as int) =~= new_views);
        }
        if result.len() > MAX_RECOGNIZED_NETWORKS {
            return Err(SafeHarborError::FieldLengthExceeded);
        }
        Ok(result)
    }

    /// Union-insert recognized network identifiers. Idempotent: identifiers
    /// already present are skipped. Fails, changing nothing, when an
    /// identifier is over its length bound or the result would exceed the
    /// registry's capacity.
    pub fn add_valid_chains(&mut self, chain_ids: &Vec<String>) -> (r: Result<
        (),
        SafeHarborError,
    >)
        requires
            old(self).wf(),
        ensures
            final(self).wf(),
            final(self).owner == old(self).owner,
            final(self).initialized == old(self).initialized,
            final(self).agreements == old(self).agreements,
            r is Ok <==> ((forall|k: int|
                0 <= k < chain_ids@.len() ==> #[trigger] chain_ids@[k]@.len()
                    <= MAX_NETWORK_ID_LEN) && add_networks(
                old(self).networks(),
                str_views(chain_ids@),
            ).len() <= MAX_RECOGNIZED_NETWORKS),
            r is Ok ==> final(self).networks() == add_networks(
                old(self).networks(),
                str_views(chain_ids@),
            ),
            r is Err ==> *final(self) == *old(self) && (r == Err::<(), SafeHarborError>(
                SafeHarborError::InvalidNetworkId,
            ) || r == Err::<(), SafeHarborError>(SafeHarborError::FieldLengthExceeded)),
    {
        match self.union_networks(chain_ids) {
            Ok(v) => {
                self.valid_chains = v;
                Ok(())
            },
            Err(e) => Err(e),
        }
    }

    /// Remove every given identifier from the recognized set. Identifiers
    /// that are not present are ignored. Never fails.
    #[verifier::loop_isolation(false)]
    #[verifier::rlimit(30)]
    pub fn remove_invalid_chains(&mut self, chain_ids: &Vec<String>) -> (r: Result<
        (),
        SafeHarborError,
    >)
        requires
            old(self).wf(),
        ensures
            final(self).wf(),
            final(self).owner == old(self).owner,
            final(self).initialized == old(self).initialized,
            final(self).agreements == old(self).agreements,
            r is Ok,
            final(self).networks() == remove_networks(old(self).networks(), str_views(chain_ids@)),
    {
        let ghost del_views = str_views(chain_ids@);
        let mut result: Vec<String> = Vec::new();
        let mut i: usize = 0;
        proof {
            reveal(Seq::filter);
            assert(self.networks().subrange(0, 0) =~= Seq::<Seq<char>>::empty());
            assert(str_views(result@) =~= Seq::<Seq<char>>::empty());
            assert(remove_networks(self.networks().subrange(0, 0), del_views)
                == Seq::<Seq<char>>::empty());
        }
        while i < self.valid_chains.len()
            invariant
                0 <= i <= self.valid_chains@.len(),
                str_views(result@) == remove_networks(
                    self.networks().subrange(0, i as int),
                    del_views,
                ),
                del_views == str_views(chain_ids@),
            decreases self.valid_chains@.len() - i,
        {
            let ghost pre = result@;
            let mut present = false;
            let mut j: usize = 0;
            while j < chain_ids.len()
                invariant
                    0 <= j <= chain_ids@.len(),
                    present ==> seq_contains_str(del_views, self.valid_chains@[i as int]@),
                    !present ==> (forall|t: int|
                        0 <= t < j ==> #[trigger] chain_ids@[t]@ != self.valid_chains@[i as int]@),
                    i < self.valid_chains@.len(),
                decreases chain_ids@.len() - j,
            {
                if str_eq(chain_ids[j].as_str(), self.valid_chains[i].as_str()) {
                    proof {
                        assert(del_views[j as int] == self.valid_chains@[i as int]@);
                    }
                    present = true;
                }
                j += 1;
            }
            proof {
                if !present {
                    assert forall|t: int| 0 <= t < del_views.len() implies del_views[t]
                        != self.valid_chains@[i as int]@ by {
                        assert(del_views[t] == chain_ids@[t]@);
                    }
                }
            }
            if !present {
                let s = self.valid_chains[i].clone();
                result.push(s);
                proof {
                    assert(str_views(result@) =~= str_views(pre).push(
                        self.valid_chains@[i as int]@,
                    ));
                }
            }
            proof {
                reveal(Seq::filter);
                let a = self.networks().subrange(0, i as int);
                let b = self.networks().subrange(0, i as int + 1);
                assert(b.drop_last() =~= a);
                assert(b.last() == self.valid_chains@[i as int]@);
            }
            i += 1;
        }
        proof {
            assert(self.networks().subrange(0, self.valid_chains@.len() as int)
                =~= self.networks());
            lemma_remove_networks_bounds(self.networks(), del_views);
        }
        self.valid_chains = result;
        Ok(())
    }

    /// Initialize the registry: set its owner, mark it initialized, and
    /// union-insert the given identifiers. Fails, changing nothing, when
    /// the identifier list is empty, the registry is already initialized,
    /// an identifier is over its length bound, or the result would exceed
    /// the registry's capacity.
    pub fn initialize(&mut self, caller: Identity, valid_chains: &Vec<String>) -> (r: Result<
        (),
        SafeHarborError,
    >)
        requires
            old(self).wf(),
        ensures
            final(self).wf(),
            r is Ok <==> (valid_chains@.len() > 0 && !old(self).initialized && (forall|k: int|
                0 <= k < valid_chains@.len() ==> #[trigger] valid_chains@[k]@.len()
                    <= MAX_NETWORK_ID_LEN) && add_networks(
                old(self).networks(),
                str_views(valid_chains@),
            ).len() <= MAX_RECOGNIZED_NETWORKS),
            r is Ok ==> {
                &&& final(self).owner == caller
                &&& final(self).initialized
                &&& final(self).networks() == add_networks(
                    old(self).networks(),
                    str_views(valid_chains@),
                )
                &&& final(self).agreements == old(self).agreements
            },
            r is Err ==> *final(self) == *old(self),
            r == Err::<(), SafeHarborError>(SafeHarborError::InvalidNetworkId) <==> (
            valid_chains@.len() == 0 || (!old(self).initialized && exists|k: int|
                0 <= k < valid_chains@.len() && #[trigger] valid_chains@[k]@.len()
                    > MAX_NETWORK_ID_LEN)),
            r == Err::<(), SafeHarborError>(SafeHarborError::RegistryAlreadyInitialized) <==> (
            valid_chains@.len() > 0 && old(self).initialized),
    {
        if valid_chains.len() == 0 {
            return Err(SafeHarborError::InvalidNetworkId);
        }
        if self.initialized {
            return Err(SafeHarborError::RegistryAlreadyInitialized);
        }
        match self.union_networks(valid_chains) {
            Ok(v) => {
                self.owner = caller;
                self.initialized = true;
                self.valid_chains = v;
                Ok(())
            },
            Err(e) => Err(e),
        }
    }

    /// Owner-gated union insert of recognized identifiers.
    pub fn set_valid_chains(&mut self, caller: &Identity, chain_ids: &Vec<String>) -> (r: Result<
        (),
        SafeHarborError,
    >)
        requires
            old(self).wf(),
        ensures
            final(self).wf(),
            final(self).owner == old(self).owner,
            final(self).initialized == old(self).initialized,
            final(self).agreements == old(self).agreements,
            r is Ok <==> (old(self).initialized && old(self).owner@ == caller@ && (forall|k: int|
                0 <= k < chain_ids@.len() ==> #[trigger] chain_ids@[k]@.len()
                    <= MAX_NETWORK_ID_LEN) && add_networks(
                old(self).networks(),
                str_views(chain_ids@),
            ).len() <= MAX_RECOGNIZED_NETWORKS),
            r is Ok ==> final(self).networks() == add_networks(
                old(self).networks(),
                str_views(chain_ids@),
            ),
            r is Err ==> *final(self) == *old(self),
            r == Err::<(), SafeHarborError>(SafeHarborError::RegistryNotInitialized) <==> !old(
                self,
            ).initialized,
            r == Err::<(), SafeHarborError>(SafeHarborError::NotRegistryOwner) <==> (old(
                self,
            ).initialized && old(self).owner@ != caller@),
    {
        if let Err(e) = self.validate_owner(caller) {
            return Err(e);
        }
        self.add_valid_chains(chain_ids)
    }

    /// Owner-gated removal of recognized identifiers.
    pub fn set_invalid_chains(&mut self, caller: &Identity, chain_ids: &Vec<String>) -> (r: Result<
        (),
        SafeHarborError,
    >)
        requires
            old(self).wf(),
        ensures
            final(self).wf(),
            final(self).owner == old(self).owner,
            final(self).initialized == old(self).initialized,
            final(self).agreements == old(self).agreements,
            r is Ok <==> (old(self).initialized && old(self).owner@ == caller@),
            r is Ok ==> final(self).networks() == remove_networks(
                old(self).networks(),
                str_views(chain_ids@),
            ),
            r is Err ==> *final(self) == *old(self),
            r == Err::<(), SafeHarborError>(SafeHarborError::RegistryNotInitialized) <==> !old(
                self,
            ).initialized,
            r == Err::<(), SafeHarborError>(SafeHarborError::NotRegistryOwner) <==> (old(
                self,
            ).initialized && old(self).owner@ != caller@),
    {
        if let Err(e) = self.validate_owner(caller) {
            return Err(e);
        }
        self.remove_invalid_chains(chain_ids)
    }

    /// Succeeds exactly when every scope entry's network identifier is in
    /// the recognized set.
    #[verifier::loop_isolation(false)]
    pub fn validate_network_scope(&self, chains: &Vec<crate::types::Chain>) -> (r: Result<
        (),
        SafeHarborError,
    >)
        ensures
            r is Ok <==> (forall|i: int|
                0 <= i < chains@.len() ==> seq_contains_str(
                    self.networks(),
                    #[trigger] chains@[i].caip2_chain_id@,
                )),
            r is Err ==> r == Err::<(), SafeHarborError>(SafeHarborError::NetworkNotRecognized),
    {
        let mut i: usize = 0;
        while i < chains.len()
            invariant
                0 <= i <= chains@.len(),
                forall|j: int|
                    0 <= j < i ==> seq_contains_str(
                        self.networks(),
                        #[trigger] chains@[j].caip2_chain_id@,
                    ),
            decreases chains@.len() - i,
        {
            if !self.is_chain_valid(chains[i].caip2_chain_id.as_str()) {
                return Err(SafeHarborError::NetworkNotRecognized);
            }
            i += 1;
        }
        Ok(())
    }

    /// The agreement most recently recorded for `adopter`, if any.
    pub fn get_agreement(&self, adopter: Identity) -> (r: Option<Identity>)
        ensures
            r == self.agreements.spec_get(adopter@),
    {
        self.agreements.get(adopter)
    }

    /// Record that `adopter` now adopts `agreement`. An existing entry is
    /// overwritten; a new one is appended, unless the index is full.
    pub fn set_agreement(&mut self, adopter: Identity, agreement: Identity) -> (r: Result<
        (),
        SafeHarborError,
    >)
        requires
            old(self).wf(),
        ensures
            final(self).wf(),
            final(self).owner == old(self).owner,
            final(self).initialized == old(self).initialized,
            final(self).valid_chains == old(self).valid_chains,
            r is Ok <==> (old(self).agreements.spec_get(adopter@) is Some || old(
                self,
            ).agreements.items@.len() < MAX_AGREEMENT_ENTRIES),
            r is Ok ==> final(self).agreements.spec_get(adopter@) == Some(agreement) && (forall|
                k: Seq<u8>,
            |
                k != adopter@ ==> #[trigger] final(self).agreements.spec_get(k) == old(
                    self,
                ).agreements.spec_get(k)),
            r is Err ==> *final(self) == *old(self) && r == Err::<(), SafeHarborError>(
                SafeHarborError::FieldLengthExceeded,
            ),
    {
        if !self.agreements.contains_key(adopter) && self.agreements.len()
            >= MAX_AGREEMENT_ENTRIES {
            return Err(SafeHarborError::FieldLengthExceeded);
        }
        self.agreements.insert(adopter, agreement);
        Ok(())
    }

    /// Drop the entry recorded for `adopter`; reports whether one was there.
    pub fn remove_agreement(&mut self, adopter: Identity) -> (r: bool)
        requires
            old(self).wf(),
        ensures
            final(self).wf(),
            final(self).owner == old(self).owner,
            final(self).initialized == old(self).initialized,
            final(self).valid_chains == old(self).valid_chains,
            r == (old(self).agreements.spec_get(adopter@) is Some),
            final(self).agreements.spec_get(adopter@) is None,
            forall|k: Seq<u8>|
                k != adopter@ ==> #[trigger] final(self).agreements.spec_get(k) == old(
                    self,
                ).agreements.spec_get(k),
    {
        self.agreements.remove(adopter)
    }

    /// Record an adoption: `adopter` adopts `agreement`, which must not be
    /// the zero identity. Returns the previously recorded agreement, or the
    /// zero identity when there was none.
    pub fn record_adoption(&mut self, adopter: Identity, agreement: Identity) -> (r: Result<
        Identity,
        SafeHarborError,
    >)
        requires
            old(self).wf(),
        ensures
            final(self).wf(),
            final(self).owner == old(self).owner,
            final(self).initialized == old(self).initialized,
            final(self).valid_chains == old(self).valid_chains,
            r is Ok <==> (agreement@ != Identity::default_spec() && (old(
                self,
            ).agreements.spec_get(adopter@) is Some || old(self).agreements.items@.len()
                < MAX_AGREEMENT_ENTRIES)),
            r is Err ==> *final(self) == *old(self),
            r == Err::<Identity, SafeHarborError>(SafeHarborError::InvalidAccountParams) <==> (
            agreement@ == Identity::default_spec()),
            match r {
                Ok(prev) => {
                    &&& final(self).agreements.spec_get(adopter@) == Some(agreement)
                    &&& (forall|k: Seq<u8>|
                        k != adopter@ ==> #[trigger] final(self).agreements.spec_get(k) == old(
                            self,
                        ).agreements.spec_get(k))
                    &&& prev@ == (match old(self).agreements.spec_get(adopter@) {
                        Some(a) => a@,
                        None => Identity::default_spec(),
                    })
                },
                Err(e) => e == SafeHarborError::InvalidAccountParams || e
                    == SafeHarborError::FieldLengthExceeded,
            },
    {
        if agreement.is_zero() {
            return Err(SafeHarborError::InvalidAccountParams);
        }
        let prev = match self.get_agreement(adopter) {
            Some(a) => a,
            None => Identity::zero(),
        };
        match self.set_agreement(adopter, agreement) {
            Ok(()) => Ok(prev),
            Err(e) => Err(e),
        }
    }
}

impl Default for Registry {
    fn default() -> (r: Registry)
        ensures
            r.wf(),
            r.owner@ == Identity::default_spec(),
            !r.initialized,
            r.networks().len() == 0,
            r.agreements.items@.len() == 0,
    {
        Registry::new()
    }
}

/// One union-insert step from the back: inserting `new ++ [x]` is inserting
/// `new`, then `x` if it is still missing.
proof fn lemma_add_networks_snoc(cur: Seq<Seq<char>>, new: Seq<Seq<char>>, x: Seq<char>)
    ensures
        add_networks(cur, new.push(x)) == {
            let r = add_networks(cur, new);
            if seq_contains_str(r, x) {
                r
            } else {
                r.push(x)
            }
        },
    decreases new.len(),
{
    if new.len() == 0 {
        assert(new.push(x)[0] == x);
        assert(new.push(x).drop_first() =~= Seq::<Seq<char>>::empty());
        let cur2 = if seq_contains_str(cur, x) {
            cur
        } else {
            cur.push(x)
        };
        assert(add_networks(cur2, Seq::<Seq<char>>::empty()) == cur2);
    } else {
        assert(new.push(x)[0] == new[0]);
        assert(new.push(x).drop_first() =~= new.drop_first().push(x));
        let cur2 = if seq_contains_str(cur, new[0]) {
            cur
        } else {
            cur.push(new[0])
        };
        lemma_add_networks_snoc(cur2, new.drop_first(), x);
    }
}

/// Removal keeps distinctness, never grows the set, and introduces nothing.
proof fn lemma_remove_networks_bounds(vs: Seq<Seq<char>>, del: Seq<Seq<char>>)
    requires
        distinct_strs(vs),
    ensures
        distinct_strs(remove_networks(vs, del)),
        remove_networks(vs, del).len() <= vs.len(),
        forall|i: int|
            0 <= i < remove_networks(vs, del).len() ==> seq_contains_str(
                vs,
                #[trigger] remove_networks(vs, del)[i],
            ),
    decreases vs.len(),
{
    reveal(Seq::filter);
    let r = remove_networks(vs, del);
    if vs.len() > 0 {
        let rest = vs.drop_last();
        assert(distinct_strs(rest));
        lemma_remove_networks_bounds(rest, del);
        let rr = remove_networks(rest, del);
        assert forall|i: int| 0 <= i < rr.len() implies seq_contains_str(vs, #[trigger] rr[i]) by {
            let w = choose|w: int| 0 <= w < rest.len() && rest[w] == rr[i];
            assert(vs[w] == rr[i]);
        }
        if !seq_contains_str(del, vs.last()) {
            assert(r == rr.push(vs.last()));
            assert(vs.last() == vs[vs.len() - 1]);
            assert forall|i: int, j: int| 0 <= i < j < r.len() implies r[i] != r[j] by {
                if j == r.len() - 1 {
                    let w = choose|w: int| 0 <= w < rest.len() && rest[w] == #[trigger] rr[i];
                    assert(vs[w] == r[i]);
                }
            }
            assert forall|i: int| 0 <= i < r.len() implies seq_contains_str(
                vs,
                #[trigger] r[i],
            ) by {
                if i < r.len() - 1 {
                    assert(r[i] == rr[i]);
                }
            }
        } else {
            assert(r == rr);
        }
    }
}

} // verus!
