//! The fetch loop: walks a cursor from the start block toward the moving
//! chain head and decides, step by step, which block is fetched next and
//! what has to be waited for.
//!
//! The loop never waits itself. [`BlockFetcher::next_step`] names the thing
//! to wait for; the caller waits and comes back. A block is fetched only
//! while it lies below the head and within one admission window of the
//! sequencer's next expected block, and only after the admission
//! controller has handed out a permit for it.

use crate::admission::{AcquireStep, Admission, AdmissionController, Permit};
use crate::head::BackoffPolicy;
use crate::task::FetchTask;
use std::collections::{HashSet, VecDeque};
use vstd::prelude::*;

verus! {

broadcast use vstd::std_specs::hash::group_hash_axioms;

/// How the fetch loop is set up.
#[derive(Clone, Copy, Debug, PartialEq, Eq, Structural)]
pub struct BlockFetcherParams {
    /// How many fetches may run at once; positive.
    pub max_concurrency: usize,
    /// How many fetches may start per second; positive.
    pub max_rps: u32,
    /// The first block to fetch.
    pub start_block: u64,
}

impl BlockFetcherParams {
    /// Whether both limits are positive.
    pub open spec fn wf(&self) -> bool {
        self.max_concurrency >= 1 && self.max_rps >= 1
    }

    /// Whether both limits are positive.
    pub fn is_valid(&self) -> (valid: bool)
        ensures
            valid == self.wf(),
    {
        self.max_concurrency >= 1 && self.max_rps >= 1
    }
}

impl Default for BlockFetcherParams {
    /// A hundred fetches at once, a hundred per second, from block 0.
    fn default() -> (params: Self)
        ensures
            params == (BlockFetcherParams { max_concurrency: 100, max_rps: 100, start_block: 0 }),
            params.wf(),
    {
        BlockFetcherParams { max_concurrency: 100, max_rps: 100, start_block: 0 }
    }
}

/// What the fetch loop has to wait for before it can go on.
#[derive(Clone, Copy, Debug, PartialEq, Eq, Structural)]
pub enum FetchStep {
    /// Every block below the head is taken care of: wait until the head
    /// is beyond `past`.
    WaitForAdvance { past: u64 },
    /// No permit is free, or the admission window is full: wait until a
    /// running fetch produces its result.
    WaitForCompletion,
    /// A permit is reserved for the next block: wait for a token of the
    /// rate limiter, then call [`BlockFetcher::token_granted`].
    WaitForRateToken,
    /// The loop was cancelled: start nothing.
    Stopped,
}

/// The fetch loop as a mathematical value.
pub struct Fetching {
    /// The next block that was never fetched.
    pub cursor: u64,
    /// The admission controller.
    pub admission: Admission,
    /// Tasks to run again, oldest first.
    pub retries: Seq<FetchTask>,
    /// The task for which a permit is reserved.
    pub chosen: Option<FetchTask>,
    /// The blocks whose fetches run.
    pub running: Set<u64>,
    /// How retries are spaced.
    pub backoff: BackoffPolicy,
}

impl Fetching {
    /// A loop that has fetched nothing yet.
    pub open spec fn start(params: BlockFetcherParams, backoff: BackoffPolicy) -> Fetching {
        Fetching {
            cursor: params.start_block,
            admission: Admission::start(params.max_concurrency as nat),
            retries: Seq::empty(),
            chosen: None,
            running: Set::empty(),
            backoff,
        }
    }

    /// Whether block `n` waits to be fetched again.
    pub open spec fn queued(self, n: u64) -> bool {
        exists|i: int| 0 <= i < self.retries.len() && (#[trigger] self.retries[i]).block_number == n
    }

    /// Whether a permit is reserved for block `n`.
    pub open spec fn chooses(self, n: u64) -> bool {
        self.chosen is Some && self.chosen.unwrap().block_number == n
    }

    /// Whether the loop takes care of block `n`: its fetch runs, is about
    /// to start, or waits to be run again.
    pub open spec fn in_progress(self, n: u64) -> bool {
        self.running.contains(n) || self.chooses(n) || self.queued(n)
    }

    /// A task is chosen exactly while a permit is reserved; as many fetches
    /// run as permits are held; and every block below the cursor that the
    /// loop takes care of is in one place only.
    pub open spec fn inv(self) -> bool {
        &&& self.admission.inv()
        &&& self.chosen is Some <==> self.admission.reserved
        &&& self.running.finite()
        &&& self.running.len() == self.admission.in_flight()
        &&& forall|n: u64| #[trigger] self.running.contains(n) ==> n < self.cursor
        &&& forall|i: int|
            0 <= i < self.retries.len() ==> (#[trigger] self.retries[i]).block_number < self.cursor
                && !self.running.contains(self.retries[i].block_number)
        &&& forall|i: int, j: int|
            0 <= i < j < self.retries.len() ==> (#[trigger] self.retries[i]).block_number != (
            #[trigger] self.retries[j]).block_number
        &&& self.chosen is Some ==> {
            &&& self.chosen.unwrap().block_number < self.cursor
            &&& !self.running.contains(self.chosen.unwrap().block_number)
            &&& !self.queued(self.chosen.unwrap().block_number)
        }
    }

    /// One past the last block that may be in progress while the sequencer
    /// expects `next_expected`.
    pub open spec fn window_end(self, next_expected: u64) -> int {
        next_expected + self.admission.max
    }

    /// The task to let in next: the oldest retry, else the block at the
    /// cursor if it lies below the head and inside the admission window.
    pub open spec fn pick(self, head: u64, next_expected: u64) -> Option<FetchTask> {
        if self.retries.len() > 0 {
            Some(self.retries[0])
        } else if self.cursor < head && self.cursor < self.window_end(next_expected) {
            Some(FetchTask { block_number: self.cursor, attempt: 0 })
        } else {
            None
        }
    }

    /// Whether `next_step` reserves a permit.
    pub open spec fn reserves(self, head: u64, next_expected: u64) -> bool {
        &&& !self.admission.cancelled
        &&& self.chosen is None
        &&& self.pick(head, next_expected) is Some
        &&& self.admission.outstanding < self.admission.max
    }

    /// What the loop has to wait for.
    pub open spec fn step_answer(self, head: u64, next_expected: u64) -> FetchStep {
        if self.admission.cancelled {
            FetchStep::Stopped
        } else if self.chosen is Some {
            FetchStep::WaitForRateToken
        } else if self.pick(head, next_expected) is None {
            if self.cursor >= head {
                FetchStep::WaitForAdvance { past: self.cursor }
            } else {
                FetchStep::WaitForCompletion
            }
        } else if self.admission.outstanding < self.admission.max {
            FetchStep::WaitForRateToken
        } else {
            FetchStep::WaitForCompletion
        }
    }

    /// The loop after one step: where a permit is reserved, the picked task
    /// leaves the retries, or the cursor moves past it.
    pub open spec fn next_step(self, head: u64, next_expected: u64) -> Fetching {
        if self.reserves(head, next_expected) {
            Fetching {
                cursor: if self.retries.len() > 0 {
                    self.cursor
                } else {
                    (self.cursor + 1) as u64
                },
                admission: self.admission.poll(),
                retries: if self.retries.len() > 0 {
                    self.retries.skip(1)
                } else {
                    self.retries
                },
                chosen: self.pick(head, next_expected),
                ..self
            }
        } else {
            self
        }
    }

    /// The delay before `task` is run: none for a first fetch, and for a
    /// retry the backoff of the retries before it.
    pub open spec fn delay(self, task: FetchTask) -> nat {
        if task.attempt == 0 {
            0
        } else {
            self.backoff.delay((task.attempt - 1) as nat)
        }
    }

    /// The task that a granted rate token starts, if any.
    pub open spec fn launches(self) -> Option<FetchTask> {
        if self.admission.token_admits() {
            self.chosen
        } else {
            None
        }
    }

    /// The loop after the rate limiter granted a token: the chosen task
    /// runs.
    pub open spec fn grant(self) -> Fetching {
        if self.admission.token_admits() && self.chosen is Some {
            Fetching {
                admission: self.admission.grant(),
                chosen: None,
                running: self.running.insert(self.chosen.unwrap().block_number),
                ..self
            }
        } else {
            self
        }
    }

    /// Whether a result for `task` is taken: only if the fetch of its
    /// block runs.
    pub open spec fn finishes(self, task: FetchTask) -> bool {
        self.running.contains(task.block_number)
    }

    /// The loop after the fetch of `task` produced its result: the block
    /// runs no more, its permit is back, and if the result asks for it the
    /// task waits to be run again. A result for a block that does not run
    /// changes nothing.
    pub open spec fn complete(self, task: FetchTask, retry: bool) -> Fetching {
        if self.finishes(task) {
            Fetching {
                admission: self.admission.release(),
                running: self.running.remove(task.block_number),
                retries: if retry {
                    self.retries.push(task.again())
                } else {
                    self.retries
                },
                ..self
            }
        } else {
            self
        }
    }

    /// The loop after cancellation.
    pub open spec fn cancel(self) -> Fetching {
        Fetching { admission: self.admission.cancel(), chosen: None, ..self }
    }
}

/// Loops with the same retries have the same blocks waiting to be fetched
/// again.
pub proof fn lemma_same_retries(a: Fetching, b: Fetching)
    requires
        a.retries == b.retries,
    ensures
        forall|m: u64| a.queued(m) == b.queued(m),
{
    assert forall|m: u64| a.queued(m) == b.queued(m) by {
        if a.queued(m) {
            let i = choose|i: int|
                0 <= i < a.retries.len() && (#[trigger] a.retries[i]).block_number == m;
            assert(b.retries[i].block_number == m);
        }
        if b.queued(m) {
            let i = choose|i: int|
                0 <= i < b.retries.len() && (#[trigger] b.retries[i]).block_number == m;
            assert(a.retries[i].block_number == m);
        }
    }
}

/// A step keeps the loop well formed and never lets it run ahead: a first
/// fetch is chosen only for the block at the cursor, below the head and
/// inside the admission window, and the cursor then moves by one; otherwise
/// the cursor stays. The loop takes care of the same blocks as before, and
/// of the block that the cursor moved past.
pub proof fn lemma_step_stays_in_window(f: Fetching, head: u64, next_expected: u64)
    requires
        f.inv(),
    ensures
        f.next_step(head, next_expected).inv(),
        f.next_step(head, next_expected).running == f.running,
        f.cursor <= f.next_step(head, next_expected).cursor <= f.cursor + 1,
        f.next_step(head, next_expected).cursor != f.cursor ==> {
            &&& f.next_step(head, next_expected).chosen == Some(
                FetchTask { block_number: f.cursor, attempt: 0 },
            )
            &&& f.cursor < head
            &&& f.cursor < f.window_end(next_expected)
        },
        f.step_answer(head, next_expected) == (FetchStep::WaitForAdvance { past: f.cursor })
            ==> f.cursor >= head && f.retries.len() == 0,
        forall|m: u64|
            #![trigger f.next_step(head, next_expected).in_progress(m)]
            #![trigger f.in_progress(m)]
            f.next_step(head, next_expected).in_progress(m) <==> f.in_progress(m) || (f.next_step(
                head,
                next_expected,
            ).cursor != f.cursor && m == f.cursor),
{
    let after = f.next_step(head, next_expected);
    if f.reserves(head, next_expected) {
        if f.retries.len() > 0 {
            let first = f.retries[0];
            assert forall|m: u64| after.queued(m) <==> f.queued(m) && m != first.block_number by {
                if after.queued(m) {
                    let i = choose|i: int|
                        0 <= i < after.retries.len() && (#[trigger] after.retries[i]).block_number
                            == m;
                    assert(after.retries[i] == f.retries[i + 1]);
                }
                if f.queued(m) && m != first.block_number {
                    let i = choose|i: int|
                        0 <= i < f.retries.len() && (#[trigger] f.retries[i]).block_number == m;
                    assert(after.retries[i - 1] == f.retries[i]);
                }
            }
            assert forall|i: int| 0 <= i < after.retries.len() implies (
            #[trigger] after.retries[i]).block_number < after.cursor && !after.running.contains(
                after.retries[i].block_number,
            ) by {
                assert(after.retries[i] == f.retries[i + 1]);
            }
            assert forall|i: int, j: int| 0 <= i < j < after.retries.len() implies (
            #[trigger] after.retries[i]).block_number != (
            #[trigger] after.retries[j]).block_number by {
                assert(after.retries[i] == f.retries[i + 1]);
                assert(after.retries[j] == f.retries[j + 1]);
            }
        } else {
            lemma_same_retries(after, f);
        }
    }
}

/// A granted rate token keeps the loop well formed. If it starts a fetch,
/// one more fetch runs; the loop takes care of the same blocks as before.
pub proof fn lemma_grant_keeps_blocks(f: Fetching)
    requires
        f.inv(),
    ensures
        f.grant().inv(),
        f.grant().cursor == f.cursor,
        f.launches() is Some ==> f.grant().running.len() == f.running.len() + 1,
        forall|m: u64|
            #![trigger f.grant().in_progress(m)]
            #![trigger f.in_progress(m)]
            f.grant().in_progress(m) <==> f.in_progress(m),
{
    lemma_same_retries(f.grant(), f);
    if f.admission.token_admits() {
        let n = f.chosen.unwrap().block_number;
        assert forall|i: int| 0 <= i < f.retries.len() implies (
        #[trigger] f.retries[i]).block_number != n by {
            if f.retries[i].block_number == n {
                assert(f.queued(n));
            }
        }
    }
}

/// A finished fetch keeps the loop well formed: one fetch fewer runs, and
/// the loop goes on taking care of the block exactly if the task is to be
/// run again.
pub proof fn lemma_complete_keeps_blocks(f: Fetching, task: FetchTask, retry: bool)
    requires
        f.inv(),
    ensures
        f.complete(task, retry).inv(),
        f.complete(task, retry).cursor == f.cursor,
        f.finishes(task) ==> f.complete(task, retry).running.len() + 1 == f.running.len(),
        f.finishes(task) ==> forall|m: u64|
            #![trigger f.complete(task, retry).in_progress(m)]
            #![trigger f.in_progress(m)]
            f.complete(task, retry).in_progress(m) <==> if m == task.block_number {
                retry
            } else {
                f.in_progress(m)
            },
{
    let after = f.complete(task, retry);
    let n = task.block_number;
    if f.finishes(task) {
        assert(!f.queued(n)) by {
            if f.queued(n) {
                let i = choose|i: int|
                    0 <= i < f.retries.len() && (#[trigger] f.retries[i]).block_number == n;
                assert(!f.running.contains(f.retries[i].block_number));
            }
        }
        if retry {
            let last = f.retries.len() as int;
            assert(after.retries[last].block_number == n);
            assert forall|m: u64| after.queued(m) <==> f.queued(m) || m == n by {
                if after.queued(m) && m != n {
                    let i = choose|i: int|
                        0 <= i < after.retries.len() && (#[trigger] after.retries[i]).block_number
                            == m;
                    assert(after.retries[i] == f.retries[i]);
                }
                if f.queued(m) {
                    let i = choose|i: int|
                        0 <= i < f.retries.len() && (#[trigger] f.retries[i]).block_number == m;
                    assert(after.retries[i] == f.retries[i]);
                }
            }
            assert forall|i: int| 0 <= i < after.retries.len() implies (
            #[trigger] after.retries[i]).block_number < after.cursor && !after.running.contains(
                after.retries[i].block_number,
            ) by {
                if i < last {
                    assert(after.retries[i] == f.retries[i]);
                }
            }
            assert forall|i: int, j: int| 0 <= i < j < after.retries.len() implies (
            #[trigger] after.retries[i]).block_number != (
            #[trigger] after.retries[j]).block_number by {
                assert(after.retries[i] == f.retries[i]);
                if j < last {
                    assert(after.retries[j] == f.retries[j]);
                } else {
                    if f.retries[i].block_number == n {
                        assert(f.queued(n));
                    }
                }
            }
        } else {
            lemma_same_retries(after, f);
        }
        if f.chosen is Some {
            assert(!after.queued(f.chosen.unwrap().block_number));
        }
    }
}

/// Cancellation keeps the loop well formed and adds no block to those that
/// the loop takes care of.
pub proof fn lemma_cancel_keeps_blocks(f: Fetching)
    requires
        f.inv(),
    ensures
        f.cancel().inv(),
        f.cancel().cursor == f.cursor,
        f.cancel().running == f.running,
        forall|m: u64| #[trigger] f.cancel().in_progress(m) ==> f.in_progress(m),
{
    lemma_same_retries(f.cancel(), f);
}

/// A fetch that may start now: the permit that it holds, the task, and the
/// delay to let pass before the call.
#[derive(Debug)]
pub struct Launch {
    pub permit: Permit,
    pub task: FetchTask,
    pub delay_ms: u64,
}

/// Decides which block is fetched next and when.
#[derive(Debug)]
pub struct BlockFetcher {
    cursor: u64,
    admission: AdmissionController,
    retries: VecDeque<FetchTask>,
    chosen: Option<FetchTask>,
    running: HashSet<u64>,
    backoff: BackoffPolicy,
}

impl View for BlockFetcher {
    type V = Fetching;

    closed spec fn view(&self) -> Fetching {
        Fetching {
            cursor: self.cursor,
            admission: self.admission@,
            retries: self.retries@,
            chosen: self.chosen,
            running: self.running@,
            backoff: self.backoff,
        }
    }
}

impl BlockFetcher {
    /// The fetcher's invariant: that of its model and of its controller.
    pub closed spec fn wf(&self) -> bool {
        self@.inv() && self.admission.wf()
    }

    /// What `wf` says of the model.
    pub proof fn lemma_wf(&self)
        requires
            self.wf(),
        ensures
            self@.inv(),
            self@.admission.max <= usize::MAX,
    {
    }

    /// A fetch loop that starts at `params.start_block`. Retries of a block
    /// are spaced by `backoff`.
    pub fn fetch(params: BlockFetcherParams, backoff: BackoffPolicy) -> (fetcher: Self)
        requires
            params.wf(),
        ensures
            fetcher.wf(),
            fetcher@ == Fetching::start(params, backoff),
    {
        BlockFetcher {
            cursor: params.start_block,
            admission: AdmissionController::new(params.max_concurrency),
            retries: VecDeque::new(),
            chosen: None,
            running: HashSet::new(),
            backoff,
        }
    }

    /// The next block that was never fetched.
    pub fn cursor(&self) -> (cursor: u64)
        ensures
            cursor == self@.cursor,
    {
        self.cursor
    }

    /// How many fetches run now.
    pub fn in_flight(&self) -> (n: usize)
        requires
            self.wf(),
        ensures
            n == self@.running.len(),
            n == self@.admission.in_flight(),
            n <= self@.admission.max,
    {
        self.admission.in_flight()
    }

    /// Whether the fetch of block `n` runs now.
    pub fn is_running(&self, n: u64) -> (running: bool)
        ensures
            running == self@.running.contains(n),
    {
        self.running.contains(&n)
    }

    /// How many tasks wait to be run again.
    pub fn retries_waiting(&self) -> (n: usize)
        ensures
            n == self@.retries.len(),
    {
        self.retries.len()
    }

    /// Makes one step of the loop, for the head as it is known now and the
    /// block that the sequencer expects next. Reserves a permit for the
    /// next task if there is a task and a free permit, and says what to
    /// wait for.
    pub fn next_step(&mut self, head: u64, next_expected: u64) -> (step: FetchStep)
        requires
            old(self).wf(),
        ensures
            final(self).wf(),
            final(self)@ == old(self)@.next_step(head, next_expected),
            step == old(self)@.step_answer(head, next_expected),
    {
        proof {
            lemma_step_stays_in_window(self@, head, next_expected);
        }
        if self.admission.is_cancelled() {
            return FetchStep::Stopped;
        }
        if self.chosen.is_some() {
            return FetchStep::WaitForRateToken;
        }
        let from_retries = self.retries.len() > 0;
        let width: u64 = self.admission.max_concurrency() as u64;
        let in_window = self.cursor < next_expected || self.cursor - next_expected < width;
        if !from_retries && !(self.cursor < head && in_window) {
            if self.cursor >= head {
                return FetchStep::WaitForAdvance { past: self.cursor };
            }
            return FetchStep::WaitForCompletion;
        }
        if self.admission.outstanding() >= self.admission.max_concurrency() {
            return FetchStep::WaitForCompletion;
        }
        let reserved = self.admission.poll_acquire();
        assert(reserved == AcquireStep::WaitForRateToken);
        if from_retries {
            let task = self.retries.pop_front();
            self.chosen = task;
        } else {
            self.chosen = Some(FetchTask::first(self.cursor));
            self.cursor = self.cursor + 1;
        }
        FetchStep::WaitForRateToken
    }

    /// Reports one token granted by the rate limiter. Starts the task for
    /// which a permit was reserved; a token that nobody waits for starts
    /// nothing.
    pub fn token_granted(&mut self) -> (launch: Option<Launch>)
        requires
            old(self).wf(),
        ensures
            final(self).wf(),
            final(self)@ == old(self)@.grant(),
            launch is Some <==> old(self)@.launches() is Some,
            launch matches Some(l) ==> {
                &&& Some(l.task) == old(self)@.launches()
                &&& l.delay_ms == old(self)@.delay(l.task)
            },
    {
        proof {
            lemma_grant_keeps_blocks(self@);
        }
        match self.admission.token_granted() {
            Some(permit) => {
                let task = self.chosen.unwrap();
                self.chosen = None;
                self.running.insert(task.block_number);
                let delay_ms: u64 = if task.attempt == 0 {
                    0
                } else {
                    self.backoff.delay_ms(task.attempt - 1)
                };
                Some(Launch { permit, task, delay_ms })
            },
            None => None,
        }
    }

    /// Reports that the fetch of `task` produced its result, and takes its
    /// permit back. With `retry` the task is queued to run once more.
    /// Returns whether the fetch of the block ran; if it did not, nothing
    /// changes.
    pub fn completed(&mut self, permit: Permit, task: FetchTask, retry: bool) -> (ran: bool)
        requires
            old(self).wf(),
        ensures
            final(self).wf(),
            final(self)@ == old(self)@.complete(task, retry),
            ran == old(self)@.finishes(task),
    {
        proof {
            lemma_complete_keeps_blocks(self@, task, retry);
        }
        if !self.running.remove(&task.block_number) {
            assert(self.running@ =~= old(self).running@);
            return false;
        }
        self.admission.release(permit);
        if retry {
            self.retries.push_back(task.retry());
        }
        true
    }

    /// Cancels the loop: nothing is started from now on.
    pub fn cancel(&mut self)
        requires
            old(self).wf(),
        ensures
            final(self).wf(),
            final(self)@ == old(self)@.cancel(),
    {
        proof {
            lemma_cancel_keeps_blocks(self@);
        }
        self.admission.cancel();
        self.chosen = None;
    }
}

} // verus!
