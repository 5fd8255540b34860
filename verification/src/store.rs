//! Key-addressed storage of opaque byte values.
//!
//! At most one value exists per key at any time; a new store for the same
//! key replaces the prior value in full. The store is a journal of writes
//! read through its most recent entry per key; its contents are modelled as
//! a map from key segments to bytes.

use vstd::prelude::*;
use vstd::slice::slice_to_vec;
use crate::key::Key;

verus! {

/// Failure modes of a lookup: the key has no stored value. Storage faults
/// of a backing medium are the concern of whatever hosts the store.
#[derive(Clone, Copy, Debug, PartialEq, Eq, Structural)]
pub enum StoreError {
    NotFound,
}

/// The value store: write-once-per-run blob storage keyed by hierarchical
/// key. Viewed as a map from segment sequences to byte sequences.
pub struct ValueStore {
    entries: Vec<(Key, Vec<u8>)>,
}

/// The contents of a write journal: later writes shadow earlier ones.
spec fn entries_map(s: Seq<(Key, Vec<u8>)>) -> Map<Seq<Seq<char>>, Seq<u8>>
    decreases s.len(),
{
    if s.len() == 0 {
        Map::empty()
    } else {
        entries_map(s.drop_last()).insert(s.last().0@, s.last().1@)
    }
}

impl View for ValueStore {
    type V = Map<Seq<Seq<char>>, Seq<u8>>;

    closed spec fn view(&self) -> Map<Seq<Seq<char>>, Seq<u8>> {
        entries_map(self.entries@)
    }
}

proof fn lemma_no_match(s: Seq<(Key, Vec<u8>)>, k: Seq<Seq<char>>)
    requires
        forall|j: int| 0 <= j < s.len() ==> s[j].0@ != k,
    ensures
        !entries_map(s).contains_key(k),
    decreases s.len(),
{
    if s.len() > 0 {
        assert(forall|j: int| 0 <= j < s.drop_last().len() ==> s.drop_last()[j] == s[j]);
        lemma_no_match(s.drop_last(), k);
    }
}

proof fn lemma_last_match(s: Seq<(Key, Vec<u8>)>, k: Seq<Seq<char>>, i: int)
    requires
        0 <= i < s.len(),
        s[i].0@ == k,
        forall|j: int| i < j < s.len() ==> s[j].0@ != k,
    ensures
        entries_map(s).contains_key(k),
        entries_map(s)[k] == s[i].1@,
    decreases s.len(),
{
    if i < s.len() - 1 {
        assert(forall|j: int| 0 <= j < s.drop_last().len() ==> s.drop_last()[j] == s[j]);
        lemma_last_match(s.drop_last(), k, i);
    }
}

impl ValueStore {
    /// An empty store: no key has a value.
    pub fn new() -> (r: ValueStore)
        ensures
            r@ == Map::<Seq<Seq<char>>, Seq<u8>>::empty(),
    {
        ValueStore { entries: Vec::new() }
    }

    /// Stores `value` as the complete contents under `key`, replacing any
    /// prior value for that key in full.
    pub fn store(&mut self, key: &Key, value: Vec<u8>)
        ensures
            final(self)@ == old(self)@.insert(key@, value@),
    {
        let ghost v = value@;
        let k = key.duplicate();
        self.entries.push((k, value));
        proof {
            assert(self.entries@.drop_last() =~= old(self).entries@);
            assert(self.entries@.last().0@ == key@);
            assert(self.entries@.last().1@ == v);
        }
    }

    /// Retrieves the value stored under `key`, byte for byte; a key never
    /// stored is reported as not found, distinct from any stored value.
    pub fn load(&self, key: &Key) -> (r: Result<Vec<u8>, StoreError>)
        ensures
            match r {
                Ok(v) => self@.contains_key(key@) && v@ == self@[key@],
                Err(e) => e == StoreError::NotFound && !self@.contains_key(key@),
            },
    {
        let n = self.entries.len();
        let mut i = n;
        while i > 0
            invariant
                i <= n,
                n == self.entries@.len(),
                forall|j: int| i <= j < n ==> self.entries@[j].0@ != key@,
            decreases i,
        {
            i = i - 1;
            if self.entries[i].0.equals(key) {
                proof {
                    lemma_last_match(self.entries@, key@, i as int);
                }
                return Ok(slice_to_vec(self.entries[i].1.as_slice()));
            }
        }
        proof {
            lemma_no_match(self.entries@, key@);
        }
        Err(StoreError::NotFound)
    }
}

// ---------------------------------------------------------------------------
// Laws
// ---------------------------------------------------------------------------

/// A store followed immediately by a load of the same key returns exactly
/// the stored bytes, for any key and any value, the empty one included:
/// after `store` the contents hold `v` under `k`, and `load` returns what
/// the contents hold.
pub proof fn lemma_store_then_load(m: Map<Seq<Seq<char>>, Seq<u8>>, k: Seq<Seq<char>>, v: Seq<u8>)
    ensures
        m.insert(k, v).contains_key(k),
        m.insert(k, v)[k] == v,
{
}

/// A key never stored is reported as missing: in particular an empty store
/// holds nothing, so a load cannot confuse "not found" with an empty value.
pub proof fn lemma_never_stored_not_found(k: Seq<Seq<char>>)
    ensures
        !Map::<Seq<Seq<char>>, Seq<u8>>::empty().contains_key(k),
{
}

/// Two sequential stores to the same key leave exactly the second value; no
/// trace of the first remains in the contents.
pub proof fn lemma_store_overwrites(
    m: Map<Seq<Seq<char>>, Seq<u8>>,
    k: Seq<Seq<char>>,
    v1: Seq<u8>,
    v2: Seq<u8>,
)
    ensures
        m.insert(k, v1).insert(k, v2) == m.insert(k, v2),
        m.insert(k, v1).insert(k, v2)[k] == v2,
{
    assert(m.insert(k, v1).insert(k, v2) =~= m.insert(k, v2));
}

} // verus!
