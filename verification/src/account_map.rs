//! An order-preserving key-value map over identities, backed by a vector.
//!
//! Lookup finds the first entry with the given key; the well-formedness
//! invariant keeps keys unique, so first-match and only-match coincide.

use vstd::prelude::*;

use crate::types::Identity;

verus! {

/// One key-value pair of an [`AccountMap`].
#[derive(Clone, Copy, Debug)]
pub struct AccountMapEntry {
    pub key: Identity,
    pub value: Identity,
}

/// The value of the first entry of `items` whose key is `key`, if any.
pub open spec fn seq_get(items: Seq<AccountMapEntry>, key: Seq<u8>) -> Option<Identity>
    decreases items.len(),
{
    if items.len() == 0 {
        None
    } else if items[0].key@ == key {
        Some(items[0].value)
    } else {
        seq_get(items.drop_first(), key)
    }
}

/// No two entries carry the same key.
pub open spec fn distinct_keys(items: Seq<AccountMapEntry>) -> bool {
    forall|i: int, j: int| 0 <= i < j < items.len() ==> items[i].key@ != items[j].key@
}

/// When the first `i` entries miss `key`, lookup continues in the rest.
proof fn lemma_seq_get_skip(items: Seq<AccountMapEntry>, key: Seq<u8>, i: int)
    requires
        0 <= i <= items.len(),
        forall|j: int| 0 <= j < i ==> items[j].key@ != key,
    ensures
        seq_get(items, key) == seq_get(items.subrange(i, items.len() as int), key),
    decreases i,
{
    if i == 0 {
        assert(items.subrange(0, items.len() as int) =~= items);
    } else {
        lemma_seq_get_skip(items, key, i - 1);
        let a = items.subrange(i - 1, items.len() as int);
        let b = items.subrange(i, items.len() as int);
        assert(a[0] == items[i - 1]);
        assert(a[0].key@ != key);
        assert(a.drop_first() =~= b);
    }
}

/// Lookup after a push: the new entry is found only where the old map
/// had nothing under its key.
proof fn lemma_seq_get_push(items: Seq<AccountMapEntry>, e: AccountMapEntry, key: Seq<u8>)
    ensures
        seq_get(items.push(e), key) == if seq_get(items, key) is Some {
            seq_get(items, key)
        } else if e.key@ == key {
            Some(e.value)
        } else {
            None::<Identity>
        },
    decreases items.len(),
{
    if items.len() == 0 {
        assert(items.push(e)[0] == e);
        assert(seq_get(items, key) is None);
        if e.key@ == key {
            assert(seq_get(items.push(e), key) == Some(e.value));
        } else {
            assert(items.push(e).drop_first() =~= Seq::<AccountMapEntry>::empty());
            assert(seq_get(items.push(e), key) == seq_get(
                Seq::<AccountMapEntry>::empty(),
                key,
            ));
            assert(seq_get(items.push(e), key) is None);
        }
    } else {
        lemma_seq_get_push(items.drop_first(), e, key);
        assert(items.push(e)[0] == items[0]);
        assert(items.push(e).drop_first() =~= items.drop_first().push(e));
        if items[0].key@ == key {
            assert(seq_get(items.push(e), key) == Some(items[0].value));
            assert(seq_get(items, key) == Some(items[0].value));
        } else {
            assert(seq_get(items.push(e), key) == seq_get(items.drop_first().push(e), key));
            assert(seq_get(items, key) == seq_get(items.drop_first(), key));
        }
    }
}

/// Lookup after updating position `i`, whose old and new entries share
/// one key: the updated value is found under that key, everything else
/// is looked up as before.
proof fn lemma_seq_get_update(
    items: Seq<AccountMapEntry>,
    i: int,
    e: AccountMapEntry,
    key: Seq<u8>,
)
    requires
        0 <= i < items.len(),
        items[i].key@ == e.key@,
        forall|j: int| 0 <= j < i ==> items[j].key@ != e.key@,
    ensures
        seq_get(items.update(i, e), key) == if e.key@ == key {
            Some(e.value)
        } else {
            seq_get(items, key)
        },
    decreases i,
{
    let u = items.update(i, e);
    if i == 0 {
        assert(u[0] == e);
        assert(u.drop_first() =~= items.drop_first());
        if e.key@ != key {
            assert(items[0].key@ == e.key@);
        }
    } else {
        assert(u[0] == items[0]);
        assert(items[0].key@ != e.key@);
        assert(u.drop_first() =~= items.drop_first().update(i - 1, e));
        assert(forall|j: int|
            0 <= j < i - 1 ==> #[trigger] items.drop_first()[j].key@ == items[j + 1].key@);
        lemma_seq_get_update(items.drop_first(), i - 1, e, key);
    }
}

/// Lookup after removing position `i`: the removed key is gone, everything
/// else is looked up as before. Needs distinct keys.
proof fn lemma_seq_get_remove(items: Seq<AccountMapEntry>, i: int, key: Seq<u8>)
    requires
        0 <= i < items.len(),
        distinct_keys(items),
    ensures
        seq_get(items.remove(i), key) == if items[i].key@ == key {
            None::<Identity>
        } else {
            seq_get(items, key)
        },
    decreases i,
{
    let u = items.remove(i);
    if i == 0 {
        assert(u =~= items.drop_first());
        if items[0].key@ == key {
            // no other entry carries the removed key
            lemma_seq_get_none(items.drop_first(), key);
        }
    } else {
        assert(u[0] == items[0]);
        assert(u.drop_first() =~= items.drop_first().remove(i - 1));
        assert(forall|j: int|
            0 <= j < items.len() - 1 ==> #[trigger] items.drop_first()[j].key@ == items[j
                + 1].key@);
        lemma_seq_get_remove(items.drop_first(), i - 1, key);
    }
}

/// A map none of whose entries carries `key` finds nothing under it.
proof fn lemma_seq_get_none(items: Seq<AccountMapEntry>, key: Seq<u8>)
    requires
        forall|j: int| 0 <= j < items.len() ==> items[j].key@ != key,
    ensures
        seq_get(items, key) is None,
    decreases items.len(),
{
    if items.len() > 0 {
        lemma_seq_get_none(items.drop_first(), key);
    }
}

/// A found key is carried by some entry.
proof fn lemma_seq_get_some_has_witness(items: Seq<AccountMapEntry>, key: Seq<u8>)
    requires
        seq_get(items, key) is Some,
    ensures
        exists|j: int| 0 <= j < items.len() && items[j].key@ == key,
    decreases items.len(),
{
    if items.len() > 0 && items[0].key@ != key {
        lemma_seq_get_some_has_witness(items.drop_first(), key);
        let j = choose|j: int|
            0 <= j < items.drop_first().len() && items.drop_first()[j].key@ == key;
        assert(items[j + 1].key@ == key);
    }
}

/// An order-preserving map from identities to identities.
#[derive(Clone, Debug)]
pub struct AccountMap {
    pub items: Vec<AccountMapEntry>,
}

impl AccountMap {
    /// Keys are unique.
    pub open spec fn wf(&self) -> bool {
        distinct_keys(self.items@)
    }

    /// What the map associates with `key`.
    pub open spec fn spec_get(&self, key: Seq<u8>) -> Option<Identity> {
        seq_get(self.items@, key)
    }

    pub fn new() -> (r: AccountMap)
        ensures
            r.wf(),
            r.items@.len() == 0,
            forall|k: Seq<u8>| r.spec_get(k) is None,
    {
        let r = AccountMap { items: Vec::new() };
        proof {
            assert forall|k: Seq<u8>| r.spec_get(k) is None by {
                assert(r.items@.len() == 0);
            }
        }
        r
    }

    /// Index of the first entry carrying `key`, if any.
    #[verifier::loop_isolation(false)]
    fn position_of(&self, key: &Identity) -> (r: Option<usize>)
        ensures
            match r {
                Some(i) => i < self.items@.len() && self.items@[i as int].key@ == key@ && forall|
                    j: int,
                |
                    0 <= j < i ==> self.items@[j].key@ != key@,
                None => forall|j: int| 0 <= j < self.items@.len() ==> self.items@[j].key@ != key@,
            },
    {
        let mut i: usize = 0;
        while i < self.items.len()
            invariant
                0 <= i <= self.items@.len(),
                forall|j: int| 0 <= j < i ==> self.items@[j].key@ != key@,
            decreases self.items@.len() - i,
        {
            if self.items[i].key == *key {
                return Some(i);
            }
            i += 1;
        }
        None
    }

    /// Insert or update a key-value pair. An existing entry keeps its
    /// position; a new one is appended.
    pub fn insert(&mut self, key: Identity, value: Identity)
        requires
            old(self).wf(),
        ensures
            final(self).wf(),
            final(self).spec_get(key@) == Some(value),
            forall|k: Seq<u8>|
                k != key@ ==> #[trigger] final(self).spec_get(k) == old(self).spec_get(k),
            final(self).items@.len() == if old(self).spec_get(key@) is Some {
                old(self).items@.len()
            } else {
                old(self).items@.len() + 1
            },
            old(self).spec_get(key@) is None ==> final(self).items@ == old(self).items@.push(
                AccountMapEntry { key, value },
            ),
            old(self).spec_get(key@) is Some ==> exists|i: int|
                0 <= i < old(self).items@.len() && #[trigger] old(self).items@[i].key@ == key@
                    && final(self).items@ == old(self).items@.update(
                    i,
                    AccountMapEntry { key, value },
                ),
    {
        let e = AccountMapEntry { key, value };
        match self.position_of(&key) {
            Some(i) => {
                proof {
                    lemma_seq_get_skip(self.items@, key@, i as int);
                    assert(self.items@.subrange(i as int, self.items@.len() as int)[0]
                        == self.items@[i as int]);
                }
                let ghost before = self.items@;
                self.items[i] = e;
                proof {
                    assert(self.items@ =~= before.update(i as int, e));
                    assert forall|k: Seq<u8>| true implies #[trigger] seq_get(self.items@, k) == (
                    if k == key@ {
                        Some(value)
                    } else {
                        seq_get(before, k)
                    }) by {
                        lemma_seq_get_update(before, i as int, e, k);
                    }
                }
            },
            None => {
                let ghost before = self.items@;
                self.items.push(e);
                proof {
                    assert(self.items@ =~= before.push(e));
                    lemma_seq_get_none(before, key@);
                    assert forall|k: Seq<u8>| true implies #[trigger] seq_get(self.items@, k) == (
                    if k == key@ {
                        Some(value)
                    } else {
                        seq_get(before, k)
                    }) by {
                        lemma_seq_get_push(before, e, k);
                    }
                    assert forall|i: int, j: int|
                        0 <= i < j < self.items@.len() implies self.items@[i].key@
                        != self.items@[j].key@ by {
                        if j == self.items@.len() - 1 {
                            assert(self.items@[i] == before[i]);
                        }
                    }
                }
            },
        }
    }

    /// The value stored under `key`, if any.
    pub fn get(&self, key: Identity) -> (r: Option<Identity>)
        ensures
            r == self.spec_get(key@),
    {
        match self.position_of(&key) {
            Some(i) => {
                proof {
                    lemma_seq_get_skip(self.items@, key@, i as int);
                    assert(self.items@.subrange(i as int, self.items@.len() as int)[0]
                        == self.items@[i as int]);
                }
                Some(self.items[i].value)
            },
            None => {
                proof {
                    lemma_seq_get_none(self.items@, key@);
                }
                None
            },
        }
    }

    /// Remove the entry under `key`; reports whether one was there.
    pub fn remove(&mut self, key: Identity) -> (r: bool)
        requires
            old(self).wf(),
        ensures
            final(self).wf(),
            r == (old(self).spec_get(key@) is Some),
            final(self).spec_get(key@) is None,
            forall|k: Seq<u8>|
                k != key@ ==> #[trigger] final(self).spec_get(k) == old(self).spec_get(k),
            old(self).spec_get(key@) is Some ==> final(self).items@.len() + 1 == old(
                self,
            ).items@.len(),
            old(self).spec_get(key@) is None ==> final(self).items@.len() == old(
                self,
            ).items@.len(),
            old(self).spec_get(key@) is None ==> final(self).items@ == old(self).items@,
            old(self).spec_get(key@) is Some ==> exists|i: int|
                0 <= i < old(self).items@.len() && #[trigger] old(self).items@[i].key@ == key@
                    && final(self).items@ == old(self).items@.remove(i),
    {
        match self.position_of(&key) {
            Some(i) => {
                proof {
                    lemma_seq_get_skip(self.items@, key@, i as int);
                    assert(self.items@.subrange(i as int, self.items@.len() as int)[0]
                        == self.items@[i as int]);
                }
                let ghost before = self.items@;
                self.items.remove(i);
                proof {
                    assert(self.items@ =~= before.remove(i as int));
                    assert forall|k: Seq<u8>| true implies #[trigger] seq_get(self.items@, k) == (
                    if k == key@ {
                        None::<Identity>
                    } else {
                        seq_get(before, k)
                    }) by {
                        lemma_seq_get_remove(before, i as int, k);
                    }
                    assert forall|a: int, b: int|
                        0 <= a < b < self.items@.len() implies self.items@[a].key@
                        != self.items@[b].key@ by {
                        assert(self.items@[a] == if a < i as int {
                            before[a]
                        } else {
                            before[a + 1]
                        });
                        assert(self.items@[b] == if b < i as int {
                            before[b]
                        } else {
                            before[b + 1]
                        });
                    }
                }
                true
            },
            None => {
                proof {
                    lemma_seq_get_none(self.items@, key@);
                }
                false
            },
        }
    }

    /// The number of entries.
    pub fn len(&self) -> (r: usize)
        ensures
            r == self.items@.len(),
    {
        self.items.len()
    }

    /// Is the map empty?
    pub fn is_empty(&self) -> (r: bool)
        ensures
            r == (self.items@.len() == 0),
    {
        self.items.is_empty()
    }

    /// Is anything stored under `key`?
    pub fn contains_key(&self, key: Identity) -> (r: bool)
        ensures
            r == (self.spec_get(key@) is Some),
    {
        match self.position_of(&key) {
            Some(i) => {
                proof {
                    lemma_seq_get_skip(self.items@, key@, i as int);
                    assert(self.items@.subrange(i as int, self.items@.len() as int)[0]
                        == self.items@[i as int]);
                }
                true
            },
            None => {
                proof {
                    lemma_seq_get_none(self.items@, key@);
                }
                false
            },
        }
    }
}

impl Default for AccountMap {
    fn default() -> (r: AccountMap)
        ensures
            r.wf(),
            r.items@.len() == 0,
    {
        AccountMap::new()
    }
}

} // verus!
