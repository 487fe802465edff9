//! The counters through which the pipeline shows its progress.

use std::sync::atomic::AtomicU64;
use std::sync::Arc;
use vstd::prelude::*;

verus! {

/// Three shared counters. Each can be read at any time without waiting for
/// the pipeline: the last block saved, the last block fetched and the
/// chain head as it is known.
#[derive(Clone, Debug, Default)]
pub struct Stats {
    pub last_saved_block: Arc<AtomicU64>,
    pub last_fetched_block: Arc<AtomicU64>,
    pub current_head_number: Arc<AtomicU64>,
}

impl Stats {
    /// Makes `last_saved_block` the counter of the last block saved.
    pub fn set_last_saved_block(&mut self, last_saved_block: Arc<AtomicU64>)
        ensures
            final(self).last_saved_block == last_saved_block,
            final(self).last_fetched_block == old(self).last_fetched_block,
            final(self).current_head_number == old(self).current_head_number,
    {
        self.last_saved_block = last_saved_block;
    }

    /// Makes `last_fetched_block` the counter of the last block fetched.
    pub fn set_last_fetched_block(&mut self, last_fetched_block: Arc<AtomicU64>)
        ensures
            final(self).last_fetched_block == last_fetched_block,
            final(self).last_saved_block == old(self).last_saved_block,
            final(self).current_head_number == old(self).current_head_number,
    {
        self.last_fetched_block = last_fetched_block;
    }

    /// Makes `current_head_number` the counter of the chain head.
    pub fn set_current_head_number(&mut self, current_head_number: Arc<AtomicU64>)
        ensures
            final(self).current_head_number == current_head_number,
            final(self).last_saved_block == old(self).last_saved_block,
            final(self).last_fetched_block == old(self).last_fetched_block,
    {
        self.current_head_number = current_head_number;
    }
}

} // verus!
