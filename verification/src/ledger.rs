//! Append-only in-memory record of reported failures for one server run.
//!
//! Mutation happens only under exclusive access (`&mut`), which is what a
//! host wraps in its mutual exclusion; reads go through a point-in-time
//! snapshot, never a live alias.

use vstd::prelude::*;
use crate::key::Key;

verus! {

/// One reported failure: the key it was reported under and its message.
#[derive(Debug)]
pub struct FailInfo {
    pub key: Key,
    pub message: String,
}

/// The mathematical value of one failure record.
pub struct SpecFailInfo {
    pub key: Seq<Seq<char>>,
    pub message: Seq<char>,
}

impl View for FailInfo {
    type V = SpecFailInfo;

    open spec fn view(&self) -> SpecFailInfo {
        SpecFailInfo { key: self.key@, message: self.message@ }
    }
}

/// The records held by a sequence of failure entries.
pub open spec fn records(s: Seq<FailInfo>) -> Seq<SpecFailInfo> {
    s.map(|i: int, f: FailInfo| f@)
}

/// The failure ledger, viewed as the ordered sequence of its records.
pub struct Ledger {
    fails: Vec<FailInfo>,
}

impl View for Ledger {
    type V = Seq<SpecFailInfo>;

    closed spec fn view(&self) -> Seq<SpecFailInfo> {
        records(self.fails@)
    }
}

impl Ledger {
    /// An empty ledger.
    pub fn new() -> (r: Ledger)
        ensures
            r@ == Seq::<SpecFailInfo>::empty(),
    {
        let r = Ledger { fails: Vec::new() };
        proof {
            assert(r@ =~= Seq::<SpecFailInfo>::empty());
        }
        r
    }

    /// Appends one failure record at the end of the ledger; everything
    /// already recorded stays where it is.
    pub fn record_failure(&mut self, key: Key, message: String)
        ensures
            final(self)@ == old(self)@.push(SpecFailInfo { key: key@, message: message@ }),
    {
        let ghost k = key@;
        let ghost m = message@;
        self.fails.push(FailInfo { key, message });
        proof {
            assert(self@ =~= old(self)@.push(SpecFailInfo { key: k, message: m }));
        }
    }

    /// Acknowledges a reported success. Reserved for future bookkeeping;
    /// it changes nothing today.
    pub fn record_success(&mut self, key: &Key)
        ensures
            final(self)@ == old(self)@,
    {
        let _ = key;
    }

    /// A point-in-time copy of the ledger in insertion order, safe to read
    /// while the original keeps growing.
    pub fn snapshot(&self) -> (r: Vec<FailInfo>)
        ensures
            records(r@) == self@,
    {
        let n = self.fails.len();
        let mut out: Vec<FailInfo> = Vec::new();
        let mut i: usize = 0;
        while i < n
            invariant
                i <= n,
                n == self.fails@.len(),
                records(out@) == records(self.fails@).take(i as int),
            decreases n - i,
        {
            let entry = FailInfo {
                key: self.fails[i].key.duplicate(),
                message: self.fails[i].message.clone(),
            };
            proof {
                assert(entry@ == self.fails@[i as int]@);
            }
            let ghost before = out@;
            out.push(entry);
            proof {
                assert(records(out@) =~= records(before).push(self.fails@[i as int]@));
                assert(records(self.fails@).take(i + 1) =~= records(self.fails@).take(
                    i as int,
                ).push(self.fails@[i as int]@));
            }
            i = i + 1;
        }
        proof {
            assert(records(self.fails@).take(n as int) =~= records(self.fails@));
        }
        out
    }
}

// ---------------------------------------------------------------------------
// Laws
// ---------------------------------------------------------------------------

/// The ledger contents after a batch of appends lands one record at a time,
/// in the order exclusive access was granted.
pub open spec fn appended(log: Seq<SpecFailInfo>, entries: Seq<SpecFailInfo>) -> Seq<SpecFailInfo>
    decreases entries.len(),
{
    if entries.len() == 0 {
        log
    } else {
        appended(log.push(entries[0]), entries.drop_first())
    }
}

/// However a batch of appends is interleaved with the rest of the run, each
/// append lands exactly once: the resulting ledger is the old one followed
/// by the batch in the granted order, so it grows by exactly the batch
/// length and every appended record is present, none lost or duplicated.
pub proof fn lemma_appends_accumulate(log: Seq<SpecFailInfo>, entries: Seq<SpecFailInfo>)
    ensures
        appended(log, entries) == log + entries,
        appended(log, entries).len() == log.len() + entries.len(),
        forall|i: int|
            0 <= i < entries.len() ==> appended(log, entries)[log.len() + i] == entries[i],
    decreases entries.len(),
{
    if entries.len() == 0 {
        assert(log + entries =~= log);
    } else {
        lemma_appends_accumulate(log.push(entries[0]), entries.drop_first());
        assert(log.push(entries[0]) + entries.drop_first() =~= log + entries);
    }
}

} // verus!
