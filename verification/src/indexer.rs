//! The orchestrator: owns the head tracker, the fetch loop, the sequencer
//! and the checkpoints, and decides what the process does next.
//!
//! The indexer performs nothing itself. [`ChainIndexer::next_action`] names
//! the next thing to do or to wait for; the caller does it and reports what
//! happened through the `on_*` methods. Blocks reach the consumer one by
//! one in block-number order, and a checkpoint is saved before the block
//! after a full batch is delivered.

use crate::admission::Permit;
use crate::block_fetcher::{
    lemma_cancel_keeps_blocks, lemma_complete_keeps_blocks, lemma_grant_keeps_blocks,
    lemma_step_stays_in_window, BlockFetcher, BlockFetcherParams, FetchStep, Fetching, Launch,
};
use crate::checkpoint::{
    lemma_commit_matches_checkpoint, BatchCommitter, Batching, Checkpoint, CheckpointStore,
    Consumed, Ledger,
};
use crate::error::Error;
use crate::head::{BackoffPolicy, ChainHeadTracker, Recovery, Tracking};
use crate::sequencer::{
    lemma_accept_inv, lemma_released_were_held, Sequenced, Sequencer, Verdict, Window,
};
use crate::settings::Settings;
use crate::task::{FetchOutcome, FetchResult, FetchTask};
use std::collections::VecDeque;
use vstd::prelude::*;

verus! {

/// How the three kinds of repeated attempts are spaced.
#[derive(Clone, Copy, Debug, PartialEq, Eq, Structural)]
pub struct RetryPolicies {
    /// Attempts to restore the subscription to new heads.
    pub reconnect: BackoffPolicy,
    /// Fetches of a block that was absent or failed for a while.
    pub fetch: BackoffPolicy,
    /// Attempts to save a checkpoint.
    pub save: BackoffPolicy,
}

/// The next thing for the process to do.
#[derive(Debug)]
pub enum Action<T> {
    /// Hand this block to the consumer.
    Deliver { block_number: u64, block: T },
    /// Save this checkpoint, then call [`ChainIndexer::on_saved`] or
    /// [`ChainIndexer::on_save_failed`].
    Save { chain_id: u64, block_number: u64 },
    /// Wait until the head is beyond `past`.
    WaitForHead { past: u64 },
    /// Wait until a running fetch produces its result.
    WaitForCompletion,
    /// Wait for a token of the rate limiter, then call
    /// [`ChainIndexer::on_token`].
    WaitForRateToken,
    /// Stop the pipeline with this outcome.
    Stop(Error),
}

/// What became of a fetch result.
#[derive(Clone, Copy, Debug, PartialEq, Eq, Structural)]
pub enum Completion {
    /// The block was taken in; `released` blocks became deliverable.
    Stored { released: usize },
    /// The fetch gave no block; the task is queued to run again.
    Retrying(FetchTask),
    /// The fetch failed for good; the pipeline stops.
    Failed,
    /// The result was for a block whose fetch does not run; it was dropped.
    Ignored,
}

/// What to do about a checkpoint that could not be saved.
#[derive(Clone, Copy, Debug, PartialEq, Eq, Structural)]
pub enum SaveRecovery {
    /// Save again after this many milliseconds.
    RetryAfter { delay_ms: u64 },
    /// The attempts are used up; the pipeline stops.
    GiveUp,
}

/// What the pipeline shows of its progress.
#[derive(Clone, Copy, Debug, PartialEq, Eq, Structural)]
pub struct Progress {
    /// The largest block number for which a fetch delivered a block.
    pub last_fetched_block: Option<u64>,
    /// The last block saved as a checkpoint.
    pub last_saved_block: Option<u64>,
    /// The chain head as it is known.
    pub current_head_number: u64,
}

/// One call into the indexer, as a mathematical value.
pub enum Happening<T> {
    /// The next action was asked for.
    ActionNamed,
    /// The node announced a block with this number.
    Announced(u64),
    /// The subscription to new heads was lost.
    StreamLost,
    /// The subscription to new heads is up again.
    Resubscribed,
    /// The rate limiter granted one token.
    TokenGranted,
    /// A fetch produced this result.
    Completed(FetchResult<T>),
    /// The due checkpoint was saved.
    Saved,
    /// The due checkpoint could not be saved.
    SaveFailed,
    /// The pipeline was cancelled.
    Cancelled,
}

/// Whether a counter that showed `before` may show `after`: it never goes
/// back and, once it shows a block, never shows none.
pub open spec fn not_behind(before: Option<u64>, after: Option<u64>) -> bool {
    match before {
        Some(b) => after is Some && b <= after.unwrap(),
        None => true,
    }
}

/// Whether block `n` is held by the sequencer or taken care of by the
/// fetch loop.
pub open spec fn covered<T>(window: Window<T>, fetching: Fetching, n: u64) -> bool {
    window.held.contains_key(n) || fetching.in_progress(n)
}

/// The indexer as a mathematical value.
pub struct Indexing<T> {
    pub chain_id: u64,
    pub tracking: Tracking,
    pub fetching: Fetching,
    pub window: Window<T>,
    /// Blocks released by the sequencer and not yet delivered.
    pub outbox: Seq<(u64, T)>,
    pub batching: Batching,
    pub ledger: Ledger,
    /// How many attempts in a row to save the due checkpoint failed.
    pub save_failures: nat,
    pub save_backoff: BackoffPolicy,
    pub last_fetched: Option<u64>,
    /// Why the pipeline stopped, once it has.
    pub failure: Option<Error>,
}

impl<T> Indexing<T> {
    /// A fresh indexer for a chain whose head is `head` and whose stored
    /// checkpoint is `checkpoint`.
    pub open spec fn start(
        settings: Settings,
        chain_id: u64,
        head: u64,
        checkpoint: Option<u64>,
        policies: RetryPolicies,
    ) -> Indexing<T> {
        let resume = (Checkpoint { chain_id, last_saved_block_number: checkpoint }).resume() as u64;
        Indexing {
            chain_id,
            tracking: Tracking::start(head, policies.reconnect),
            fetching: Fetching::start(
                BlockFetcherParams {
                    max_concurrency: settings.fetcher_max_concurrency,
                    max_rps: settings.fetcher_max_rps,
                    start_block: resume,
                },
                policies.fetch,
            ),
            window: Window::start(resume, settings.fetcher_max_concurrency as nat),
            outbox: Seq::empty(),
            batching: Batching::start(resume, settings.batch_save_size as nat),
            ledger: match checkpoint {
                Some(saved) => Ledger::empty().save(chain_id, saved),
                None => Ledger::empty(),
            },
            save_failures: 0,
            save_backoff: policies.save,
            last_fetched: None,
            failure: None,
        }
    }

    /// Whether block `n` is somewhere in the pipeline: held by the
    /// sequencer, or taken care of by the fetch loop.
    pub open spec fn cares_for(self, n: u64) -> bool {
        covered(self.window, self.fetching, n)
    }

    /// The parts are well formed and fit together: the blocks in the
    /// outbox continue the delivered ones without a gap and end where the
    /// sequencer goes on; nothing is held that was never asked for; the
    /// cursor is at most one admission window ahead of the sequencer; what
    /// the fetch loop takes care of is awaited by the sequencer; while the
    /// pipeline runs, every block between the sequencer and the cursor is
    /// somewhere; and the stored checkpoint is the one that the batch rule
    /// counts from.
    pub open spec fn inv(self) -> bool {
        &&& self.fetching.inv()
        &&& self.window.inv()
        &&& self.batching.inv()
        &&& self.ledger.inv()
        &&& self.window.capacity == self.fetching.admission.max
        &&& self.batching.next() + self.outbox.len() == self.window.next_expected
        &&& forall|i: int|
            0 <= i < self.outbox.len() ==> (#[trigger] self.outbox[i]).0 == self.batching.next() + i
        &&& forall|k: u64| #[trigger] self.window.held.contains_key(k) ==> k < self.fetching.cursor
        &&& self.window.next_expected <= self.fetching.cursor <= self.window.limit()
        &&& forall|n: u64| #[trigger]
            self.fetching.in_progress(n) ==> self.window.next_expected <= n
                && !self.window.held.contains_key(n)
        &&& self.failure is None ==> forall|n: u64|
            self.window.next_expected <= n < self.fetching.cursor ==> #[trigger] covered(
                self.window,
                self.fetching,
                n,
            )
        &&& self.ledger.checkpoint(self.chain_id).resume() == self.batching.resume
        &&& self.save_failures <= u32::MAX
    }

    /// The indexer stopped for the reason `error`: nothing is started from
    /// now on. The first reason stays.
    pub open spec fn fail(self, error: Error) -> Indexing<T> {
        Indexing {
            failure: if self.failure is Some {
                self.failure
            } else {
                Some(error)
            },
            fetching: self.fetching.cancel(),
            ..self
        }
    }

    /// What the fetch loop has to wait for.
    pub open spec fn fetch_step(self) -> FetchStep {
        self.fetching.step_answer(self.tracking.head, self.window.next_expected)
    }

    /// The next thing to do: stop if the pipeline has stopped; else save
    /// the due checkpoint; else deliver the oldest released block; else go
    /// on fetching.
    pub open spec fn action(self) -> Action<T> {
        if self.failure is Some {
            Action::Stop(self.failure.unwrap())
        } else if self.batching.due() is Some {
            Action::Save { chain_id: self.chain_id, block_number: self.batching.due().unwrap() }
        } else if self.outbox.len() > 0 {
            Action::Deliver { block_number: self.outbox[0].0, block: self.outbox[0].1 }
        } else {
            match self.fetch_step() {
                FetchStep::WaitForAdvance { past } => if self.tracking.status is Failed {
                    Action::Stop(Error::HeadTrackerFailed)
                } else {
                    Action::WaitForHead { past }
                },
                FetchStep::WaitForCompletion => Action::WaitForCompletion,
                FetchStep::WaitForRateToken => Action::WaitForRateToken,
                FetchStep::Stopped => Action::Stop(Error::Cancelled),
            }
        }
    }

    /// The indexer after it named the next thing to do.
    pub open spec fn advance(self) -> Indexing<T> {
        if self.failure is Some || self.batching.due() is Some {
            self
        } else if self.outbox.len() > 0 {
            Indexing {
                outbox: self.outbox.skip(1),
                batching: self.batching.offer(self.outbox[0].0),
                ..self
            }
        } else {
            let stepped = Indexing {
                fetching: self.fetching.next_step(self.tracking.head, self.window.next_expected),
                ..self
            };
            match self.action() {
                Action::Stop(error) => stepped.fail(error),
                _ => stepped,
            }
        }
    }

    /// The indexer after the node announced block `number`.
    pub open spec fn announce(self, number: u64) -> Indexing<T> {
        Indexing { tracking: self.tracking.announce(number), ..self }
    }

    /// The indexer after the subscription was lost.
    pub open spec fn lose_stream(self) -> Indexing<T> {
        Indexing { tracking: self.tracking.lose_stream(), ..self }
    }

    /// The indexer after the subscription came up again.
    pub open spec fn resubscribe(self) -> Indexing<T> {
        Indexing { tracking: self.tracking.resubscribe(), ..self }
    }

    /// The indexer after the rate limiter granted a token.
    pub open spec fn grant(self) -> Indexing<T> {
        Indexing { fetching: self.fetching.grant(), ..self }
    }

    /// The largest block fetched, once block `block_number` was fetched.
    pub open spec fn later_of(self, block_number: u64) -> Option<u64> {
        match self.last_fetched {
            Some(last) => if last >= block_number {
                Some(last)
            } else {
                Some(block_number)
            },
            None => Some(block_number),
        }
    }

    /// Whether a result is looked at: only if the fetch of its block runs.
    pub open spec fn awaits(self, result: FetchResult<T>) -> bool {
        self.fetching.finishes(result.task())
    }

    /// Whether a result asks for its block to be fetched again.
    pub open spec fn asks_again(result: FetchResult<T>) -> bool {
        result.outcome is Absent || result.outcome is Transient
    }

    /// What becomes of a fetch result.
    pub open spec fn completion(self, result: FetchResult<T>) -> Completion {
        if !self.awaits(result) {
            Completion::Ignored
        } else {
            match self.window.accept(result).1 {
                Verdict::Released(blocks) => Completion::Stored { released: blocks.len() as usize },
                Verdict::Retry(task) => Completion::Retrying(task),
                Verdict::Fatal(_) => Completion::Failed,
                Verdict::Rejected(_) => Completion::Ignored,
            }
        }
    }

    /// The indexer after a fetch produced `result`. If the fetch of the
    /// block ran, its permit is back and the result went to the sequencer;
    /// a result without a block queues the block to be fetched again. A
    /// result for a block whose fetch does not run changes nothing.
    pub open spec fn complete(self, result: FetchResult<T>) -> Indexing<T> {
        if !self.awaits(result) {
            self
        } else {
            let returned = Indexing {
                fetching: self.fetching.complete(result.task(), Self::asks_again(result)),
                ..self
            };
            let (window, verdict) = self.window.accept(result);
            match verdict {
                Verdict::Released(blocks) => Indexing {
                    window,
                    outbox: self.outbox + blocks,
                    last_fetched: self.later_of(result.block_number),
                    ..returned
                },
                Verdict::Fatal(_) => returned.fail(Error::RpcError),
                _ => returned,
            }
        }
    }

    /// The indexer after the due checkpoint was saved.
    pub open spec fn saved(self) -> Indexing<T> {
        match self.batching.due() {
            Some(block_number) => Indexing {
                ledger: self.ledger.save(self.chain_id, block_number),
                batching: self.batching.commit(),
                save_failures: 0,
                ..self
            },
            None => self,
        }
    }

    /// What to do about a checkpoint that could not be saved.
    pub open spec fn save_recovery(self) -> SaveRecovery {
        if self.failure is Some || !self.save_backoff.allows(self.save_failures) {
            SaveRecovery::GiveUp
        } else {
            SaveRecovery::RetryAfter {
                delay_ms: self.save_backoff.delay(self.save_failures) as u64,
            }
        }
    }

    /// The indexer after a checkpoint could not be saved.
    pub open spec fn save_failed(self) -> Indexing<T> {
        if self.save_recovery() is GiveUp {
            self.fail(Error::DbQueryError)
        } else {
            Indexing {
                save_failures: if self.save_failures < u32::MAX {
                    self.save_failures + 1
                } else {
                    self.save_failures
                },
                ..self
            }
        }
    }

    /// The indexer after one call.
    pub open spec fn apply(self, happening: Happening<T>) -> Indexing<T> {
        match happening {
            Happening::ActionNamed => self.advance(),
            Happening::Announced(number) => self.announce(number),
            Happening::StreamLost => self.lose_stream(),
            Happening::Resubscribed => self.resubscribe(),
            Happening::TokenGranted => self.grant(),
            Happening::Completed(result) => self.complete(result),
            Happening::Saved => self.saved(),
            Happening::SaveFailed => self.save_failed(),
            Happening::Cancelled => self.fail(Error::Cancelled),
        }
    }

    /// The block that one call hands to the consumer, if any.
    pub open spec fn hands_over(self, happening: Happening<T>) -> Seq<(u64, T)> {
        if happening is ActionNamed && self.action() is Deliver {
            seq![self.outbox[0]]
        } else {
            Seq::empty()
        }
    }

    /// The indexer after a sequence of calls.
    pub open spec fn run(self, happenings: Seq<Happening<T>>) -> Indexing<T>
        decreases happenings.len(),
    {
        if happenings.len() == 0 {
            self
        } else {
            self.run(happenings.drop_last()).apply(happenings.last())
        }
    }

    /// Every block handed to the consumer during a sequence of calls, in
    /// the order of the calls.
    pub open spec fn delivered(self, happenings: Seq<Happening<T>>) -> Seq<(u64, T)>
        decreases happenings.len(),
    {
        if happenings.len() == 0 {
            Seq::empty()
        } else {
            self.delivered(happenings.drop_last()) + self.run(happenings.drop_last()).hands_over(
                happenings.last(),
            )
        }
    }

    /// What the pipeline shows of its progress.
    pub open spec fn progress(self) -> Progress {
        Progress {
            last_fetched_block: self.last_fetched,
            last_saved_block: self.ledger.load(self.chain_id),
            current_head_number: self.tracking.head,
        }
    }
}

/// A fresh indexer is well formed, and the first block that its consumer
/// is handed is the block after the stored checkpoint, or block 0 where
/// there is none.
pub proof fn lemma_start_inv<T>(
    settings: Settings,
    chain_id: u64,
    head: u64,
    checkpoint: Option<u64>,
    policies: RetryPolicies,
)
    requires
        settings.wf(),
        checkpoint != Some(u64::MAX),
    ensures
        Indexing::<T>::start(settings, chain_id, head, checkpoint, policies).inv(),
        Indexing::<T>::start(settings, chain_id, head, checkpoint, policies).batching.next() == (
        Checkpoint { chain_id, last_saved_block_number: checkpoint }).resume(),
        Indexing::<T>::start(settings, chain_id, head, checkpoint, policies).progress() == (
        Progress {
            last_fetched_block: None,
            last_saved_block: checkpoint,
            current_head_number: head,
        }),
{
    let s = Indexing::<T>::start(settings, chain_id, head, checkpoint, policies);
    assert(s.window.held.dom() =~= Set::<u64>::empty());
}

/// Naming the next action keeps the indexer well formed. A delivered block
/// is the one that the consumer expects next, and the batch rule counts it.
pub proof fn lemma_advance_inv<T>(s: Indexing<T>)
    requires
        s.inv(),
    ensures
        s.advance().inv(),
        s.action() matches Action::Deliver { block_number, .. } ==> {
            &&& block_number == s.batching.next()
            &&& s.batching.takes(block_number)
            &&& s.advance().batching.next() == s.batching.next() + 1
        },
        s.action() matches Action::Save { block_number, .. } ==> {
            &&& s.ledger.judge(s.chain_id, block_number) is Ok
            &&& block_number + 1 == s.batching.next()
        },
        s.advance().fetching.running == s.fetching.running,
{
    lemma_step_stays_in_window(s.fetching, s.tracking.head, s.window.next_expected);
    lemma_cancel_keeps_blocks(s.fetching.next_step(s.tracking.head, s.window.next_expected));
    if s.failure is Some {
    } else if s.batching.due() is Some {
        lemma_commit_matches_checkpoint(s.batching, s.ledger, s.chain_id);
    } else if s.outbox.len() > 0 {
        let after = s.advance();
        assert(s.outbox[0].0 == s.batching.next());
        assert(s.batching.takes(s.outbox[0].0));
        assert forall|i: int| 0 <= i < after.outbox.len() implies (#[trigger] after.outbox[i]).0
            == after.batching.next() + i by {
            assert(after.outbox[i] == s.outbox[i + 1]);
        }
    } else {
        let after = s.advance();
        if after.failure is None {
            assert forall|n: u64|
                after.window.next_expected <= n < after.fetching.cursor implies #[trigger] covered(after.window, after.fetching, n) by {
                if n < s.fetching.cursor {
                    assert(covered(s.window, s.fetching, n));
                }
            }
        }
    }
}

/// A fetch result keeps the indexer well formed, whatever it holds and
/// whether or not the fetch of its block ran. The sequencer never rejects
/// the result of a fetch that ran.
pub proof fn lemma_complete_inv<T>(s: Indexing<T>, result: FetchResult<T>)
    requires
        s.inv(),
    ensures
        s.complete(result).inv(),
        s.complete(result).batching == s.batching,
        s.complete(result).fetching.running.len() <= s.fetching.running.len(),
        s.awaits(result) ==> s.window.admits(result.block_number),
{
    let n = result.block_number;
    if s.awaits(result) {
        assert(s.fetching.in_progress(n));
        lemma_accept_inv(s.window, result);
        lemma_released_were_held(s.window, result);
        lemma_complete_keeps_blocks(s.fetching, result.task(), Indexing::<T>::asks_again(result));
        let finished = s.fetching.complete(result.task(), Indexing::<T>::asks_again(result));
        lemma_cancel_keeps_blocks(finished);
        let (window, verdict) = s.window.accept(result);
        let after = s.complete(result);
        if n == s.window.next_expected {
            crate::sequencer::lemma_contiguous_end_bounds(s.window.held, n + 1, s.window.limit());
        }
        match verdict {
            Verdict::Released(blocks) => {
                assert forall|i: int| 0 <= i < after.outbox.len() implies (
                #[trigger] after.outbox[i]).0 == after.batching.next() + i by {
                    if i >= s.outbox.len() {
                        assert(after.outbox[i] == blocks[i - s.outbox.len()]);
                    }
                }
                assert forall|k: u64| #[trigger] window.held.contains_key(k) implies k
                    < s.fetching.cursor by {
                    if k != n {
                        assert(s.window.held.contains_key(k));
                    }
                }
                if blocks.len() > 0 {
                    let last = blocks[blocks.len() - 1].0;
                    assert(last == n || s.window.held.contains_key(last));
                }
                assert forall|m: u64| #[trigger] after.fetching.in_progress(m) implies (
                window.next_expected <= m && !window.held.contains_key(m)) by {
                    assert(s.fetching.in_progress(m) && m != n);
                    if window.held.contains_key(m) {
                        assert(s.window.held.contains_key(m));
                    }
                    if m < window.next_expected {
                        let i = m - s.window.next_expected;
                        assert(blocks[i].0 == m);
                    }
                }
                if after.failure is None {
                    assert forall|m: u64|
                        window.next_expected <= m < after.fetching.cursor implies #[trigger] covered(after.window, after.fetching, m) by {
                        assert(covered(s.window, s.fetching, m));
                        if m == n {
                            assert(window.held.contains_key(m));
                        } else if s.window.held.contains_key(m) {
                            assert(window.held.contains_key(m));
                        }
                    }
                }
            },
            Verdict::Retry(_) => {
                if after.failure is None {
                    assert forall|m: u64|
                        after.window.next_expected <= m < after.fetching.cursor implies #[trigger] covered(after.window, after.fetching, m) by {
                        assert(covered(s.window, s.fetching, m));
                    }
                }
            },
            _ => {},
        }
    }
}

/// A saved checkpoint keeps the indexer well formed: the store accepts the
/// due checkpoint, and store and batch rule agree on the resume point.
pub proof fn lemma_saved_inv<T>(s: Indexing<T>)
    requires
        s.inv(),
    ensures
        s.saved().inv(),
        s.batching.due() matches Some(block_number) ==> s.saved().ledger.load(s.chain_id) == Some(
            block_number,
        ) && s.saved().batching.resume == block_number + 1,
{
    if s.batching.due() is Some {
        lemma_commit_matches_checkpoint(s.batching, s.ledger, s.chain_id);
    }
}

/// One call, whichever it is, keeps the indexer well formed. It hands over
/// at most one block, and then the one that the consumer expects next; and
/// none of the three progress counters goes back.
pub proof fn lemma_apply_inv<T>(s: Indexing<T>, happening: Happening<T>)
    requires
        s.inv(),
    ensures
        s.apply(happening).inv(),
        s.apply(happening).chain_id == s.chain_id,
        s.apply(happening).batching.next() == s.batching.next() + s.hands_over(happening).len(),
        s.hands_over(happening).len() <= 1,
        s.hands_over(happening).len() == 1 ==> s.hands_over(happening)[0].0 == s.batching.next(),
        s.apply(happening).tracking.head >= s.tracking.head,
        not_behind(s.progress().last_saved_block, s.apply(happening).progress().last_saved_block),
        not_behind(
            s.progress().last_fetched_block,
            s.apply(happening).progress().last_fetched_block,
        ),
{
    lemma_grant_keeps_blocks(s.fetching);
    lemma_cancel_keeps_blocks(s.fetching);
    match happening {
        Happening::ActionNamed => {
            lemma_advance_inv(s);
        },
        Happening::TokenGranted => {
            let after = s.grant();
            if after.failure is None {
                assert forall|n: u64|
                    after.window.next_expected <= n < after.fetching.cursor implies #[trigger] covered(after.window, after.fetching, n) by {
                    assert(covered(s.window, s.fetching, n));
                }
            }
        },
        Happening::Completed(result) => {
            lemma_complete_inv(s, result);
        },
        Happening::Saved => {
            lemma_saved_inv(s);
            if s.batching.due() is Some {
                lemma_commit_matches_checkpoint(s.batching, s.ledger, s.chain_id);
            }
        },
        _ => {},
    }
}

/// End-to-end ordering: whatever is called, in whatever order and with
/// whatever fetch results, the blocks handed to the consumer are numbered
/// without a gap, a repeat or a swap from the block that the consumer
/// expected first. The indexer stays well formed throughout, so that at
/// every moment the bounds of [`lemma_bounded`] hold.
pub proof fn lemma_delivers_in_order<T>(s: Indexing<T>, happenings: Seq<Happening<T>>)
    requires
        s.inv(),
    ensures
        s.run(happenings).inv(),
        s.run(happenings).chain_id == s.chain_id,
        s.run(happenings).batching.next() == s.batching.next() + s.delivered(happenings).len(),
        forall|i: int|
            0 <= i < s.delivered(happenings).len() ==> (#[trigger] s.delivered(happenings)[i]).0
                == s.batching.next() + i,
    decreases happenings.len(),
{
    if happenings.len() > 0 {
        lemma_delivers_in_order(s, happenings.drop_last());
        let before = s.run(happenings.drop_last());
        lemma_apply_inv(before, happenings.last());
        let earlier = s.delivered(happenings.drop_last());
        let now = before.hands_over(happenings.last());
        let all = s.delivered(happenings);
        assert(all == earlier + now);
        assert forall|i: int| 0 <= i < all.len() implies (#[trigger] all[i]).0 == s.batching.next()
            + i by {
            if i >= earlier.len() {
                assert(all[i] == now[i - earlier.len()]);
            }
        }
    }
}

/// The three progress counters only grow: over any sequence of calls the
/// head, the last block saved and the last block fetched never go back.
pub proof fn lemma_progress_never_decreases<T>(s: Indexing<T>, happenings: Seq<Happening<T>>)
    requires
        s.inv(),
    ensures
        s.run(happenings).progress().current_head_number >= s.progress().current_head_number,
        not_behind(
            s.progress().last_saved_block,
            s.run(happenings).progress().last_saved_block,
        ),
        not_behind(
            s.progress().last_fetched_block,
            s.run(happenings).progress().last_fetched_block,
        ),
    decreases happenings.len(),
{
    if happenings.len() > 0 {
        lemma_progress_never_decreases(s, happenings.drop_last());
        lemma_delivers_in_order(s, happenings.drop_last());
        lemma_apply_inv(s.run(happenings.drop_last()), happenings.last());
    }
}

/// No block is lost: while the pipeline runs, every block from the one
/// that the consumer expects next up to the cursor is in exactly one of
/// these places: released and waiting to be handed over, held by the
/// sequencer, or taken care of by the fetch loop.
pub proof fn lemma_no_block_is_lost<T>(s: Indexing<T>, n: u64)
    requires
        s.inv(),
        s.failure is None,
        s.batching.next() <= n < s.fetching.cursor,
    ensures
        n < s.window.next_expected ==> s.outbox[n - s.batching.next()].0 == n && !s.cares_for(n),
        n >= s.window.next_expected ==> s.cares_for(n),
        !(s.window.held.contains_key(n) && s.fetching.in_progress(n)),
{
    if n >= s.window.next_expected {
        assert(covered(s.window, s.fetching, n));
    }
}

/// Nothing is waited for in vain: when the next action is to wait for a
/// fetch to finish, a fetch runs.
pub proof fn lemma_wait_for_completion_ends<T>(s: Indexing<T>)
    requires
        s.inv(),
        s.action() is WaitForCompletion,
    ensures
        s.fetching.running.len() >= 1,
{
    let f = s.fetching;
    if f.pick(s.tracking.head, s.window.next_expected) is None {
        let n = s.window.next_expected;
        assert(covered(s.window, s.fetching, n));
        assert(!f.queued(n));
        if f.running.len() == 0 {
            assert(f.running =~= Set::empty()) by {
                if !f.running.is_empty() {
                    vstd::set_lib::axiom_is_empty_len0(f.running);
                }
            }
        }
    }
}

/// The pipeline idles only when it has caught up: when the next action is
/// to wait for the head, the cursor has reached the head, no block waits
/// to be fetched again, nothing is left to hand over or to save, and the
/// head tracker can still announce a block. The head waited for is the
/// cursor, so any block announced beyond it ends the wait.
pub proof fn lemma_waits_for_head_only_when_caught_up<T>(s: Indexing<T>)
    requires
        s.inv(),
        s.action() is WaitForHead,
    ensures
        s.action() == (Action::<T>::WaitForHead { past: s.fetching.cursor }),
        s.tracking.head <= s.fetching.cursor,
        s.tracking.wait(s.fetching.cursor) == crate::head::HeadWait::Pending,
        s.fetching.retries.len() == 0,
        s.outbox.len() == 0,
        s.batching.due() is None,
        forall|head: u64|
            head > s.fetching.cursor ==> s.tracking.announce(head).wait(s.fetching.cursor)
                == crate::head::HeadWait::Ready(head),
{
}

/// Bounded concurrency and bounded memory, at every moment: no more
/// fetches run than the limit allows, and fewer blocks wait in the window
/// than the limit.
pub proof fn lemma_bounded<T>(s: Indexing<T>)
    requires
        s.inv(),
    ensures
        s.fetching.running.len() == s.fetching.admission.in_flight(),
        s.fetching.admission.in_flight() <= s.fetching.admission.max,
        s.window.held.dom().len() < s.fetching.admission.max,
        s.fetching.cursor - s.window.next_expected <= s.fetching.admission.max,
{
    crate::sequencer::lemma_window_bounded(s.window);
}

/// Moves the elements of `blocks` into a queue, in their order.
fn into_queue<T>(blocks: Vec<(u64, T)>) -> (queue: VecDeque<(u64, T)>)
    ensures
        queue@ == blocks@,
{
    let mut blocks = blocks;
    let ghost all = blocks@;
    let mut queue: VecDeque<(u64, T)> = VecDeque::new();
    while blocks.len() > 0
        invariant
            blocks@ + queue@ == all,
        decreases blocks.len(),
    {
        let ghost before = blocks@;
        let ghost queued = queue@;
        let block = blocks.pop().unwrap();
        queue.push_front(block);
        assert(blocks@ + queue@ =~= before + queued);
    }
    assert(queue@ =~= blocks@ + queue@);
    queue
}

/// Wires the pipeline together and decides what happens next.
pub struct ChainIndexer<T> {
    chain_id: u64,
    tracker: ChainHeadTracker,
    block_fetcher: BlockFetcher,
    sequencer: Sequencer<T>,
    outbox: VecDeque<(u64, T)>,
    committer: BatchCommitter,
    store: CheckpointStore,
    save_failures: u32,
    save_backoff: BackoffPolicy,
    last_fetched: Option<u64>,
    failure: Option<Error>,
}

impl<T> View for ChainIndexer<T> {
    type V = Indexing<T>;

    closed spec fn view(&self) -> Indexing<T> {
        Indexing {
            chain_id: self.chain_id,
            tracking: self.tracker@,
            fetching: self.block_fetcher@,
            window: self.sequencer@,
            outbox: self.outbox@,
            batching: self.committer@,
            ledger: self.store@,
            save_failures: self.save_failures as nat,
            save_backoff: self.save_backoff,
            last_fetched: self.last_fetched,
            failure: self.failure,
        }
    }
}

impl<T> ChainIndexer<T> {
    /// The indexer's invariant: that of its model and of its parts.
    pub closed spec fn wf(&self) -> bool {
        &&& self@.inv()
        &&& self.block_fetcher.wf()
        &&& self.sequencer.wf()
        &&& self.committer.wf()
        &&& self.store.wf()
    }

    /// What `wf` says of the model.
    pub proof fn lemma_wf(&self)
        requires
            self.wf(),
        ensures
            self@.inv(),
    {
    }

    /// An indexer for the chain `chain_id` whose head is `head` and whose
    /// stored checkpoint is `checkpoint`. Work resumes at the block after
    /// the checkpoint, or at block 0 where there is none. Fails if the
    /// checkpoint is the largest number there is, so that no block follows.
    pub fn from_settings(
        settings: &Settings,
        chain_id: u64,
        head: u64,
        checkpoint: Option<u64>,
        policies: RetryPolicies,
    ) -> (indexer: Result<Self, Error>)
        requires
            settings.wf(),
        ensures
            indexer is Ok <==> checkpoint != Some(u64::MAX),
            indexer matches Ok(i) ==> i.wf() && i@ == Indexing::<T>::start(
                *settings,
                chain_id,
                head,
                checkpoint,
                policies,
            ),
            indexer matches Err(e) ==> e == (Error::BlockOutOfRange { block_number: u64::MAX }),
    {
        let mut store = CheckpointStore::new();
        let resume: u64 = match checkpoint {
            Some(saved) => {
                match store.save(chain_id, saved) {
                    Ok(()) => saved + 1,
                    Err(error) => {
                        return Err(error);
                    },
                }
            },
            None => 0,
        };
        let params = BlockFetcherParams {
            max_concurrency: settings.fetcher_max_concurrency,
            max_rps: settings.fetcher_max_rps,
            start_block: resume,
        };
        let indexer = ChainIndexer {
            chain_id,
            tracker: ChainHeadTracker::start(head, policies.reconnect),
            block_fetcher: BlockFetcher::fetch(params, policies.fetch),
            sequencer: Sequencer::new(resume, settings.fetcher_max_concurrency),
            outbox: VecDeque::new(),
            committer: BatchCommitter::new(resume, settings.batch_save_size),
            store,
            save_failures: 0,
            save_backoff: policies.save,
            last_fetched: None,
            failure: None,
        };
        Ok(indexer)
    }

    /// The chain that is indexed.
    pub fn chain_id(&self) -> (chain_id: u64)
        ensures
            chain_id == self@.chain_id,
    {
        self.chain_id
    }

    /// What the pipeline shows of its progress.
    pub fn progress(&self) -> (progress: Progress)
        ensures
            progress == self@.progress(),
    {
        Progress {
            last_fetched_block: self.last_fetched,
            last_saved_block: self.store.load(self.chain_id),
            current_head_number: self.tracker.current(),
        }
    }

    /// How many fetches run now.
    pub fn in_flight(&self) -> (n: usize)
        requires
            self.wf(),
        ensures
            n == self@.fetching.running.len(),
            n <= self@.fetching.admission.max,
    {
        self.block_fetcher.in_flight()
    }

    /// Records why the pipeline stops and cancels the fetch loop.
    fn fail(&mut self, error: Error)
        requires
            old(self).wf(),
        ensures
            final(self).wf(),
            final(self)@ == old(self)@.fail(error),
    {
        proof {
            lemma_cancel_keeps_blocks(self@.fetching);
        }
        if self.failure.is_none() {
            self.failure = Some(error);
        }
        self.block_fetcher.cancel();
    }

    /// Names the next thing to do.
    pub fn next_action(&mut self) -> (action: Action<T>)
        requires
            old(self).wf(),
        ensures
            final(self).wf(),
            final(self)@ == old(self)@.advance(),
            action == old(self)@.action(),
    {
        proof {
            lemma_advance_inv(self@);
        }
        if let Some(error) = self.failure {
            return Action::Stop(error);
        }
        if let Some(block_number) = self.committer.due() {
            return Action::Save { chain_id: self.chain_id, block_number };
        }
        if self.outbox.len() > 0 {
            let (block_number, block) = self.outbox.pop_front().unwrap();
            let consumed = self.committer.offer(block_number);
            assert(consumed is Taken);
            assert(self.outbox@ =~= old(self).outbox@.skip(1));
            return Action::Deliver { block_number, block };
        }
        let head = self.tracker.current();
        let next_expected = self.sequencer.next_expected();
        match self.block_fetcher.next_step(head, next_expected) {
            FetchStep::WaitForAdvance { past } => {
                match self.tracker.status() {
                    crate::head::TrackerStatus::Failed => {
                        self.fail(Error::HeadTrackerFailed);
                        Action::Stop(Error::HeadTrackerFailed)
                    },
                    _ => Action::WaitForHead { past },
                }
            },
            FetchStep::WaitForCompletion => Action::WaitForCompletion,
            FetchStep::WaitForRateToken => Action::WaitForRateToken,
            FetchStep::Stopped => {
                self.fail(Error::Cancelled);
                Action::Stop(Error::Cancelled)
            },
        }
    }

    /// Takes an announcement of block `number`. Returns whether the head
    /// advanced.
    pub fn on_header(&mut self, number: u64) -> (advanced: bool)
        requires
            old(self).wf(),
        ensures
            final(self).wf(),
            final(self)@ == old(self)@.announce(number),
            advanced == (final(self)@.tracking.head > old(self)@.tracking.head),
    {
        self.tracker.observe(number)
    }

    /// Reports that the subscription to new heads ended or failed, or that
    /// an attempt to restore it failed.
    pub fn on_stream_lost(&mut self) -> (recovery: Recovery)
        requires
            old(self).wf(),
        ensures
            final(self).wf(),
            final(self)@ == old(self)@.lose_stream(),
            recovery == old(self)@.tracking.recovery(),
    {
        self.tracker.stream_lost()
    }

    /// Reports that the subscription to new heads is up again.
    pub fn on_resubscribed(&mut self)
        requires
            old(self).wf(),
        ensures
            final(self).wf(),
            final(self)@ == old(self)@.resubscribe(),
    {
        self.tracker.resubscribed()
    }

    /// Reports one token granted by the rate limiter. Returns the fetch to
    /// start, if a permit was reserved for one.
    pub fn on_token(&mut self) -> (launch: Option<Launch>)
        requires
            old(self).wf(),
        ensures
            final(self).wf(),
            final(self)@ == old(self)@.grant(),
            launch is Some <==> old(self)@.fetching.launches() is Some,
            launch matches Some(l) ==> {
                &&& Some(l.task) == old(self)@.fetching.launches()
                &&& l.delay_ms == old(self)@.fetching.delay(l.task)
            },
    {
        proof {
            lemma_apply_inv(self@, Happening::TokenGranted);
        }
        self.block_fetcher.token_granted()
    }

    /// Reports the result of a fetch and gives its permit back. A block is
    /// handed to the sequencer; what the sequencer releases becomes
    /// deliverable. A result without a block queues the block to be
    /// fetched again. A result for a block whose fetch does not run is
    /// dropped.
    pub fn on_completion(&mut self, permit: Permit, result: FetchResult<T>) -> (completion:
        Completion)
        requires
            old(self).wf(),
        ensures
            final(self).wf(),
            final(self)@ == old(self)@.complete(result),
            completion == old(self)@.completion(result),
    {
        proof {
            lemma_complete_inv(self@, result);
            lemma_accept_inv(self@.window, result);
            crate::sequencer::lemma_window_bounded(self@.window);
        }
        let block_number = result.block_number;
        let task = FetchTask { block_number, attempt: result.attempt };
        let retry = match &result.outcome {
            FetchOutcome::Absent => true,
            FetchOutcome::Transient => true,
            _ => false,
        };
        if !self.block_fetcher.completed(permit, task, retry) {
            return Completion::Ignored;
        }
        match self.sequencer.accept(result) {
            Sequenced::Released(blocks) => {
                let released = blocks.len();
                let mut queue = into_queue(blocks);
                self.outbox.append(&mut queue);
                let seen_later = match self.last_fetched {
                    Some(last) => last >= block_number,
                    None => false,
                };
                if !seen_later {
                    self.last_fetched = Some(block_number);
                }
                Completion::Stored { released }
            },
            Sequenced::Retry(task) => Completion::Retrying(task),
            Sequenced::Fatal(_) => {
                if self.failure.is_none() {
                    self.failure = Some(Error::RpcError);
                }
                self.block_fetcher.cancel();
                Completion::Failed
            },
            Sequenced::Rejected(_) => Completion::Ignored,
        }
    }

    /// Reports that the due checkpoint was saved. Returns the block that
    /// was saved, or `None` if no checkpoint was due.
    pub fn on_saved(&mut self) -> (saved: Option<u64>)
        requires
            old(self).wf(),
        ensures
            final(self).wf(),
            final(self)@ == old(self)@.saved(),
            saved == old(self)@.batching.due(),
    {
        proof {
            lemma_saved_inv(self@);
            if self@.batching.due() is Some {
                lemma_commit_matches_checkpoint(self@.batching, self@.ledger, self@.chain_id);
            }
        }
        match self.committer.due() {
            Some(block_number) => {
                let stored = self.store.save(self.chain_id, block_number);
                assert(stored is Ok);
                self.committer.committed();
                self.save_failures = 0;
                Some(block_number)
            },
            None => None,
        }
    }

    /// Reports that the due checkpoint could not be saved. Says after
    /// which delay to save again, or stops the pipeline when the attempts
    /// are used up.
    pub fn on_save_failed(&mut self) -> (recovery: SaveRecovery)
        requires
            old(self).wf(),
        ensures
            final(self).wf(),
            final(self)@ == old(self)@.save_failed(),
            recovery == old(self)@.save_recovery(),
    {
        if self.failure.is_some() || !self.save_backoff.permits(self.save_failures) {
            self.fail(Error::DbQueryError);
            return SaveRecovery::GiveUp;
        }
        let delay_ms = self.save_backoff.delay_ms(self.save_failures);
        if self.save_failures < u32::MAX {
            self.save_failures = self.save_failures + 1;
        }
        SaveRecovery::RetryAfter { delay_ms }
    }

    /// Cancels the pipeline: nothing is started from now on, and the next
    /// action is to stop.
    pub fn cancel(&mut self)
        requires
            old(self).wf(),
        ensures
            final(self).wf(),
            final(self)@ == old(self)@.fail(Error::Cancelled),
    {
        self.fail(Error::Cancelled);
    }
}

} // verus!
