//! The cache of the tracked pending block.

use vstd::prelude::*;
use crate::felt::{Felt, contains_felt};

verus! {

/// What the engine remembers of the pending block it tracks: the block's
/// timestamp (0 while nothing is tracked) and the transactions of that block
/// whose events went through the pipeline.
pub struct PendingBlockData {
    pub timestamp: u64,
    pub tx_hashes: Vec<Felt>,
}

impl PendingBlockData {
    /// Whether `h` is recorded as processed.
    pub open spec fn processed(&self, h: Felt) -> bool {
        self.tx_hashes@.contains(h)
    }

    /// Nothing tracked yet.
    pub fn new() -> (r: PendingBlockData)
        ensures
            r.timestamp == 0,
            r.tx_hashes@ == Seq::<Felt>::empty(),
    {
        PendingBlockData { timestamp: 0, tx_hashes: Vec::new() }
    }

    pub fn get_timestamp(&self) -> (r: u64)
        ensures
            r == self.timestamp,
    {
        self.timestamp
    }

    pub fn set_timestamp(&mut self, ts: u64)
        ensures
            final(self).timestamp == ts,
            final(self).tx_hashes@ == old(self).tx_hashes@,
    {
        self.timestamp = ts;
    }

    pub fn clear_tx_hashes(&mut self)
        ensures
            final(self).timestamp == old(self).timestamp,
            final(self).tx_hashes@ == Seq::<Felt>::empty(),
    {
        self.tx_hashes = Vec::new();
    }

    /// Starts tracking the block of timestamp `ts`, with nothing processed.
    pub fn reset(&mut self, ts: u64)
        ensures
            final(self).timestamp == ts,
            final(self).tx_hashes@ == Seq::<Felt>::empty(),
    {
        self.timestamp = ts;
        self.tx_hashes = Vec::new();
    }

    pub fn is_tx_processed(&self, h: &Felt) -> (r: bool)
        ensures
            r == self.processed(*h),
    {
        contains_felt(&self.tx_hashes, *h)
    }

    /// Records `h` as processed; a hash already recorded is kept once.
    pub fn add_tx_as_processed(&mut self, h: &Felt)
        ensures
            final(self).timestamp == old(self).timestamp,
            final(self).tx_hashes@ == if old(self).processed(*h) {
                old(self).tx_hashes@
            } else {
                old(self).tx_hashes@.push(*h)
            },
    {
        if !contains_felt(&self.tx_hashes, *h) {
            self.tx_hashes.push(*h);
        }
    }
}

} // verus!
