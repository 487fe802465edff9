//! Checkpoints: the last block of each chain that was durably processed,
//! and the rule by which checkpoints are taken.
//!
//! A checkpoint only moves forward. Work resumes at the block after the
//! checkpoint, or at block 0 where there is none. A checkpoint is due after
//! every batch of consecutive blocks, so a restart repeats at most one
//! batch and never skips a block.

use crate::error::Error;
use std::collections::HashMap;
use vstd::prelude::*;

verus! {

broadcast use vstd::std_specs::hash::group_hash_axioms;

/// The checkpoint of one chain, as it is stored.
#[derive(Clone, Copy, Debug, PartialEq, Eq, Structural)]
pub struct Checkpoint {
    pub chain_id: u64,
    /// The last block saved, or `None` if none was ever saved.
    pub last_saved_block_number: Option<u64>,
}

impl Checkpoint {
    /// The block at which work resumes: the one after the last saved
    /// block, or block 0.
    pub open spec fn resume(self) -> int {
        match self.last_saved_block_number {
            Some(saved) => saved + 1,
            None => 0,
        }
    }

    /// The block at which work resumes, or `None` if the last saved block
    /// is the largest number there is.
    pub fn resume_block(&self) -> (block: Option<u64>)
        ensures
            block is Some <==> self.resume() <= u64::MAX,
            block matches Some(b) ==> b == self.resume(),
    {
        match self.last_saved_block_number {
            Some(saved) => saved.checked_add(1),
            None => Some(0),
        }
    }
}

/// The checkpoints of all chains as a mathematical value: for each chain
/// that has one, the last block saved.
pub struct Ledger {
    pub rows: Map<u64, u64>,
}

impl Ledger {
    /// No chain has a checkpoint.
    pub open spec fn empty() -> Ledger {
        Ledger { rows: Map::empty() }
    }

    /// Every saved block has a successor.
    pub open spec fn inv(self) -> bool {
        forall|chain_id: u64| #[trigger]
            self.rows.contains_key(chain_id) ==> self.rows[chain_id] < u64::MAX
    }

    /// The last block saved for the chain.
    pub open spec fn load(self, chain_id: u64) -> Option<u64> {
        if self.rows.contains_key(chain_id) {
            Some(self.rows[chain_id])
        } else {
            None
        }
    }

    /// The checkpoint of the chain, as it is stored.
    pub open spec fn checkpoint(self, chain_id: u64) -> Checkpoint {
        Checkpoint { chain_id, last_saved_block_number: self.load(chain_id) }
    }

    /// Whether `block_number` may be saved for the chain: not if it lies
    /// below the stored block, and not if it has no successor.
    pub open spec fn judge(self, chain_id: u64, block_number: u64) -> Result<(), Error> {
        if self.rows.contains_key(chain_id) && block_number < self.rows[chain_id] {
            Err(Error::CheckpointRegression { stored: self.rows[chain_id], attempted: block_number })
        } else if block_number == u64::MAX {
            Err(Error::BlockOutOfRange { block_number })
        } else {
            Ok(())
        }
    }

    /// The ledger after `block_number` was offered for the chain.
    pub open spec fn save(self, chain_id: u64, block_number: u64) -> Ledger {
        if self.judge(chain_id, block_number) is Ok {
            Ledger { rows: self.rows.insert(chain_id, block_number) }
        } else {
            self
        }
    }

    /// The ledger after a sequence of offers, each a chain and a block.
    pub open spec fn save_all(self, offers: Seq<(u64, u64)>) -> Ledger
        decreases offers.len(),
    {
        if offers.len() == 0 {
            self
        } else {
            self.save_all(offers.drop_last()).save(offers.last().0, offers.last().1)
        }
    }
}

/// Checkpoint monotonicity: once `saved` is stored for a chain, an offer of
/// a lower block is rejected and changes nothing, the chain loads `saved`,
/// and work resumes at `saved + 1`.
pub proof fn lemma_saved_block_is_floor(ledger: Ledger, chain_id: u64, saved: u64, lower: u64)
    requires
        ledger.judge(chain_id, saved) is Ok,
        lower < saved,
    ensures
        ledger.save(chain_id, saved).load(chain_id) == Some(saved),
        ledger.save(chain_id, saved).checkpoint(chain_id).resume() == saved + 1,
        ledger.save(chain_id, saved).judge(chain_id, lower) == Err::<(), Error>(
            Error::CheckpointRegression { stored: saved, attempted: lower },
        ),
        ledger.save(chain_id, saved).save(chain_id, lower) == ledger.save(chain_id, saved),
{
}

/// Whatever is offered, in whatever order, the checkpoint of a chain never
/// moves back and never disappears, and the ledger stays well formed.
pub proof fn lemma_checkpoint_never_decreases(ledger: Ledger, offers: Seq<(u64, u64)>, chain_id: u64)
    requires
        ledger.inv(),
    ensures
        ledger.save_all(offers).inv(),
        ledger.load(chain_id) matches Some(before) ==> ledger.save_all(offers).load(chain_id)
            matches Some(after) && before <= after,
        ledger.checkpoint(chain_id).resume() <= ledger.save_all(offers).checkpoint(
            chain_id,
        ).resume(),
    decreases offers.len(),
{
    if offers.len() > 0 {
        lemma_checkpoint_never_decreases(ledger, offers.drop_last(), chain_id);
    }
}

/// Holds the checkpoint of each chain and guards its monotonicity.
pub struct CheckpointStore {
    rows: HashMap<u64, u64>,
}

impl View for CheckpointStore {
    type V = Ledger;

    closed spec fn view(&self) -> Ledger {
        Ledger { rows: self.rows@ }
    }
}

impl CheckpointStore {
    /// The store's invariant: that of its ledger.
    pub open spec fn wf(&self) -> bool {
        self@.inv()
    }

    /// A store without checkpoints.
    pub fn new() -> (store: Self)
        ensures
            store.wf(),
            store@ == Ledger::empty(),
    {
        CheckpointStore { rows: HashMap::new() }
    }

    /// The last block saved for the chain, if any.
    pub fn load(&self, chain_id: u64) -> (saved: Option<u64>)
        ensures
            saved == self@.load(chain_id),
    {
        match self.rows.get(&chain_id) {
            Some(saved) => Some(*saved),
            None => None,
        }
    }

    /// The checkpoint of the chain, as it is stored.
    pub fn checkpoint(&self, chain_id: u64) -> (row: Checkpoint)
        ensures
            row == self@.checkpoint(chain_id),
    {
        Checkpoint { chain_id, last_saved_block_number: self.load(chain_id) }
    }

    /// The block at which work on the chain resumes.
    pub fn resume_block(&self, chain_id: u64) -> (block: u64)
        requires
            self.wf(),
        ensures
            block == self@.checkpoint(chain_id).resume(),
    {
        match self.load(chain_id) {
            Some(saved) => {
                assert(self@.rows.contains_key(chain_id));
                saved + 1
            },
            None => 0,
        }
    }

    /// Saves `block_number` as the checkpoint of the chain. A block below
    /// the stored one is rejected and the store stays as it is; saving the
    /// stored block again is accepted.
    pub fn save(&mut self, chain_id: u64, block_number: u64) -> (saved: Result<(), Error>)
        requires
            old(self).wf(),
        ensures
            final(self).wf(),
            saved == old(self)@.judge(chain_id, block_number),
            final(self)@ == old(self)@.save(chain_id, block_number),
    {
        match self.load(chain_id) {
            Some(stored) => {
                if block_number < stored {
                    return Err(Error::CheckpointRegression { stored, attempted: block_number });
                }
            },
            None => {},
        }
        if block_number == u64::MAX {
            return Err(Error::BlockOutOfRange { block_number });
        }
        self.rows.insert(chain_id, block_number);
        Ok(())
    }
}

/// The checkpoint rule as a mathematical value.
pub struct Batching {
    /// After how many blocks a checkpoint is due.
    pub batch: nat,
    /// The block at which work would resume now.
    pub resume: u64,
    /// How many blocks from `resume` on were consumed.
    pub pending: nat,
}

/// What can happen to the checkpoint rule.
pub enum BatchEvent {
    /// The consumer was offered the block with this number.
    Offered(u64),
    /// The checkpoint that was due has been saved.
    Committed,
}

impl Batching {
    /// Nothing consumed yet; work starts at `resume`.
    pub open spec fn start(resume: u64, batch: nat) -> Batching {
        Batching { batch, resume, pending: 0 }
    }

    /// At most one batch is consumed and not saved.
    pub open spec fn inv(self) -> bool {
        &&& self.batch >= 1
        &&& self.pending <= self.batch
        &&& self.resume + self.pending <= u64::MAX
    }

    /// The next block to consume.
    pub open spec fn next(self) -> int {
        self.resume + self.pending
    }

    /// The checkpoint that is due: the last block consumed, once a whole
    /// batch was consumed.
    pub open spec fn due(self) -> Option<u64> {
        if self.pending == self.batch {
            Some((self.next() - 1) as u64)
        } else {
            None
        }
    }

    /// Whether block `n` is consumed: it is the next one, it has a
    /// successor, and no checkpoint is due.
    pub open spec fn takes(self, n: u64) -> bool {
        n == self.next() && n < u64::MAX && self.pending < self.batch
    }

    /// The rule after block `n` was offered.
    pub open spec fn offer(self, n: u64) -> Batching {
        if self.takes(n) {
            Batching { pending: self.pending + 1, ..self }
        } else {
            self
        }
    }

    /// The rule after the due checkpoint was saved.
    pub open spec fn commit(self) -> Batching {
        if self.pending == self.batch {
            Batching { resume: self.next() as u64, pending: 0, ..self }
        } else {
            self
        }
    }

    /// The rule after one event.
    pub open spec fn step(self, event: BatchEvent) -> Batching {
        match event {
            BatchEvent::Offered(n) => self.offer(n),
            BatchEvent::Committed => self.commit(),
        }
    }

    /// The rule after a sequence of events.
    pub open spec fn run(self, events: Seq<BatchEvent>) -> Batching
        decreases events.len(),
    {
        if events.len() == 0 {
            self
        } else {
            self.run(events.drop_last()).step(events.last())
        }
    }
}

/// At-least-once resumption: at every moment the resume point is at or
/// below the next block to consume, so a restart skips nothing, and at most
/// one batch lies between them, so a restart repeats at most one batch. The
/// resume point itself never moves back.
pub proof fn lemma_restart_repeats_at_most_one_batch(b: Batching, events: Seq<BatchEvent>)
    requires
        b.inv(),
    ensures
        b.run(events).inv(),
        b.run(events).batch == b.batch,
        b.resume <= b.run(events).resume <= b.run(events).next(),
        b.run(events).next() - b.run(events).resume <= b.batch,
        b.next() <= b.run(events).next(),
    decreases events.len(),
{
    if events.len() > 0 {
        lemma_restart_repeats_at_most_one_batch(b, events.drop_last());
    }
}

/// The checkpoint that falls due is the one that the store accepts, and
/// after it is saved the store and the rule agree on where work resumes.
pub proof fn lemma_commit_matches_checkpoint(b: Batching, ledger: Ledger, chain_id: u64)
    requires
        b.inv(),
        b.due() is Some,
        ledger.checkpoint(chain_id).resume() <= b.resume,
    ensures
        ledger.judge(chain_id, b.due().unwrap()) is Ok,
        ledger.save(chain_id, b.due().unwrap()).checkpoint(chain_id).resume()
            == b.commit().resume,
{
}

/// What the consumer is told about an offered block.
#[derive(Clone, Copy, Debug, PartialEq, Eq, Structural)]
pub enum Consumed {
    /// The block was consumed. If it completes a batch, `save_due` is the
    /// checkpoint to save before the next block is offered.
    Taken { save_due: Option<u64> },
    /// The block was not consumed: it is not the next one, or a checkpoint
    /// is due and has not been saved.
    Refused,
}

/// Counts consumed blocks and says when a checkpoint is due.
#[derive(Debug)]
pub struct BatchCommitter {
    batch_save_size: usize,
    resume: u64,
    pending: usize,
}

impl View for BatchCommitter {
    type V = Batching;

    closed spec fn view(&self) -> Batching {
        Batching {
            batch: self.batch_save_size as nat,
            resume: self.resume,
            pending: self.pending as nat,
        }
    }
}

impl BatchCommitter {
    /// The committer's invariant: that of its rule.
    pub open spec fn wf(&self) -> bool {
        self@.inv() && self@.batch <= usize::MAX
    }

    /// A committer for work that starts at `resume_block`, with a
    /// checkpoint due after every `batch_save_size` blocks.
    pub fn new(resume_block: u64, batch_save_size: usize) -> (committer: Self)
        requires
            batch_save_size >= 1,
        ensures
            committer.wf(),
            committer@ == Batching::start(resume_block, batch_save_size as nat),
    {
        BatchCommitter { batch_save_size, resume: resume_block, pending: 0 }
    }

    /// The block at which work would resume now.
    pub fn resume_block(&self) -> (block: u64)
        ensures
            block == self@.resume,
    {
        self.resume
    }

    /// How many blocks were consumed since the resume point.
    pub fn pending(&self) -> (n: usize)
        ensures
            n == self@.pending,
    {
        self.pending
    }

    /// The checkpoint that is due and not saved yet, if any.
    pub fn due(&self) -> (checkpoint: Option<u64>)
        requires
            self.wf(),
        ensures
            checkpoint == self@.due(),
    {
        if self.pending == self.batch_save_size {
            Some(self.resume + (self.pending as u64 - 1))
        } else {
            None
        }
    }

    /// Offers block `n` to the consumer.
    pub fn offer(&mut self, n: u64) -> (consumed: Consumed)
        requires
            old(self).wf(),
        ensures
            final(self).wf(),
            final(self)@ == old(self)@.offer(n),
            consumed == if old(self)@.takes(n) {
                Consumed::Taken { save_due: final(self)@.due() }
            } else {
                Consumed::Refused
            },
    {
        if self.pending < self.batch_save_size && n < u64::MAX && n >= self.resume && n
            - self.resume == self.pending as u64 {
            self.pending = self.pending + 1;
            if self.pending == self.batch_save_size {
                Consumed::Taken { save_due: Some(n) }
            } else {
                Consumed::Taken { save_due: None }
            }
        } else {
            Consumed::Refused
        }
    }

    /// Reports that the due checkpoint was saved. Returns whether one was
    /// due.
    pub fn committed(&mut self) -> (was_due: bool)
        requires
            old(self).wf(),
        ensures
            final(self).wf(),
            final(self)@ == old(self)@.commit(),
            was_due == old(self)@.due() is Some,
    {
        if self.pending == self.batch_save_size {
            self.resume = self.resume + self.pending as u64;
            self.pending = 0;
            true
        } else {
            false
        }
    }
}

} // verus!
