//! The record counts of a batch run: how many records were processed and how many of them
//! matched. (The per-batch accuracies, which are ratios, are kept by the caller.)
use vstd::prelude::*;

verus! {

/// Totals over all batches recorded since the start or the last reset.
#[derive(Debug)]
pub struct BatchTotals {
    total_records: u64,
    matching_records: u64,
}

impl BatchTotals {
    /// Records processed.
    pub closed spec fn total(&self) -> nat {
        self.total_records as nat
    }

    /// Records that matched the expected output.
    pub closed spec fn matching(&self) -> nat {
        self.matching_records as nat
    }

    /// No batch recorded yet.
    pub fn new() -> (r: Self)
        ensures
            r.total() == 0,
            r.matching() == 0,
    {
        BatchTotals { total_records: 0, matching_records: 0 }
    }

    /// Add a batch of `batch_total` records of which `batch_matches` matched.
    pub fn record_batch(&mut self, batch_matches: u64, batch_total: u64)
        requires
            old(self).total() + batch_total <= u64::MAX,
            old(self).matching() + batch_matches <= u64::MAX,
        ensures
            final(self).total() == old(self).total() + batch_total,
            final(self).matching() == old(self).matching() + batch_matches,
    {
        self.total_records = self.total_records + batch_total;
        self.matching_records = self.matching_records + batch_matches;
    }

    /// Whether a batch of `batch_total` records, `batch_matches` of them matching, can be
    /// added without the totals overflowing.
    pub fn can_record(&self, batch_matches: u64, batch_total: u64) -> (r: bool)
        ensures
            r == (self.total() + batch_total <= u64::MAX && self.matching() + batch_matches
                <= u64::MAX),
    {
        batch_total <= u64::MAX - self.total_records && batch_matches <= u64::MAX
            - self.matching_records
    }

    /// Total number of records processed.
    pub fn total_records(&self) -> (r: u64)
        ensures
            r == self.total(),
    {
        self.total_records
    }

    /// Total number of matching records.
    pub fn matching_records(&self) -> (r: u64)
        ensures
            r == self.matching(),
    {
        self.matching_records
    }

    /// Back to no batch recorded.
    pub fn reset(&mut self)
        ensures
            final(self).total() == 0,
            final(self).matching() == 0,
    {
        self.total_records = 0;
        self.matching_records = 0;
    }
}

} // verus!
