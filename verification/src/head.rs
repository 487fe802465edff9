//! Chain-head tracking: the latest block number that the node announced,
//! and what to do when the stream of announcements breaks.
//!
//! The head never decreases. A lost subscription is answered with
//! reconnection attempts that back off exponentially up to a cap; only when
//! the attempts are used up does the tracker fail for good.

use vstd::prelude::*;

verus! {

/// `base` doubled `times` times.
pub open spec fn doubled(base: nat, times: nat) -> nat
    decreases times,
{
    if times == 0 {
        base
    } else {
        2 * doubled(base, (times - 1) as nat)
    }
}

/// Doubling more often never gives less.
pub proof fn lemma_doubled_monotonic(base: nat, fewer: nat, more: nat)
    requires
        fewer <= more,
    ensures
        doubled(base, fewer) <= doubled(base, more),
    decreases more,
{
    if fewer < more {
        lemma_doubled_monotonic(base, fewer, (more - 1) as nat);
    }
}

/// How reconnection attempts are spaced and when they end.
#[derive(Clone, Copy, Debug, PartialEq, Eq, Structural)]
pub struct BackoffPolicy {
    /// The delay before the first attempt, in milliseconds.
    pub base_ms: u64,
    /// The largest delay between two attempts, in milliseconds.
    pub cap_ms: u64,
    /// How many attempts in a row may fail; `None` for no bound.
    pub max_attempts: Option<u32>,
}

impl BackoffPolicy {
    /// The delay before attempt number `attempt`, counted from 0: the base
    /// delay doubled once per earlier attempt, and at most the cap.
    pub open spec fn delay(self, attempt: nat) -> nat {
        if doubled(self.base_ms as nat, attempt) < self.cap_ms {
            doubled(self.base_ms as nat, attempt)
        } else {
            self.cap_ms as nat
        }
    }

    /// Whether attempt number `attempt`, counted from 0, may still be made.
    pub open spec fn allows(self, attempt: nat) -> bool {
        match self.max_attempts {
            Some(max) => attempt < max,
            None => true,
        }
    }

    /// The delay before attempt number `attempt`, in milliseconds.
    pub fn delay_ms(&self, attempt: u32) -> (delay: u64)
        ensures
            delay == self.delay(attempt as nat),
    {
        let mut delay: u64 = self.base_ms;
        let mut done: u32 = 0;
        while done < attempt && 0 < delay && delay < self.cap_ms
            invariant
                done <= attempt,
                delay == doubled(self.base_ms as nat, done as nat),
            decreases attempt - done,
        {
            if delay > self.cap_ms / 2 {
                proof {
                    lemma_doubled_monotonic(self.base_ms as nat, (done + 1) as nat, attempt as nat);
                }
                return self.cap_ms;
            }
            delay = delay * 2;
            done = done + 1;
        }
        proof {
            lemma_doubled_monotonic(self.base_ms as nat, done as nat, attempt as nat);
            if delay == 0 {
                lemma_doubled_monotonic(self.base_ms as nat, 0, done as nat);
                lemma_doubled_zero(attempt as nat);
            }
        }
        if delay < self.cap_ms {
            delay
        } else {
            self.cap_ms
        }
    }

    /// Whether attempt number `attempt`, counted from 0, may still be made.
    pub fn permits(&self, attempt: u32) -> (allowed: bool)
        ensures
            allowed == self.allows(attempt as nat),
    {
        match self.max_attempts {
            Some(max) => attempt < max,
            None => true,
        }
    }
}

/// Nothing doubled is nothing.
pub proof fn lemma_doubled_zero(times: nat)
    ensures
        doubled(0, times) == 0,
    decreases times,
{
    if times > 0 {
        lemma_doubled_zero((times - 1) as nat);
    }
}

/// The latest block number that the node announced.
#[derive(Clone, Copy, Debug, PartialEq, Eq, Structural)]
pub struct ChainHead {
    pub number: u64,
}

/// Whether the stream of announcements is up.
#[derive(Clone, Copy, Debug, PartialEq, Eq, Structural)]
pub enum TrackerStatus {
    /// The subscription delivers announcements.
    Live,
    /// The subscription is down; `failures` attempts to restore it were
    /// scheduled since it was last up.
    Reconnecting { failures: u32 },
    /// The attempts are used up: the tracker has failed for good.
    Failed,
}

/// The tracker as a mathematical value.
pub struct Tracking {
    pub head: u64,
    pub status: TrackerStatus,
    pub policy: BackoffPolicy,
}

/// What can happen to the tracker.
pub enum TrackerEvent {
    /// The node announced a block with this number.
    Announced(u64),
    /// The subscription ended or failed, or an attempt to restore it failed.
    StreamLost,
    /// The subscription is up again.
    Resubscribed,
}

/// What the tracker asks for after the subscription was lost.
#[derive(Clone, Copy, Debug, PartialEq, Eq, Structural)]
pub enum Recovery {
    /// Subscribe again after this many milliseconds.
    Reconnect { delay_ms: u64 },
    /// Stop: tell every waiter that the tracker has failed.
    GiveUp,
}

/// What a waiter learns when it asks for a head beyond some block.
#[derive(Clone, Copy, Debug, PartialEq, Eq, Structural)]
pub enum HeadWait {
    /// The head is already beyond the block: this is the head.
    Ready(u64),
    /// The head is not beyond the block yet: wait for an announcement.
    Pending,
    /// The head is not beyond the block and the tracker has failed.
    Failed,
}

impl Tracking {
    /// A live tracker whose head is `head`.
    pub open spec fn start(head: u64, policy: BackoffPolicy) -> Tracking {
        Tracking { head, status: TrackerStatus::Live, policy }
    }

    /// The tracker after the node announced block `number`: the head is
    /// the larger of the two, and an announcement shows that the stream is
    /// up. A failed tracker stays as it is.
    pub open spec fn announce(self, number: u64) -> Tracking {
        if self.status is Failed {
            self
        } else {
            Tracking {
                head: if number > self.head {
                    number
                } else {
                    self.head
                },
                status: TrackerStatus::Live,
                policy: self.policy,
            }
        }
    }

    /// How many attempts to restore the subscription were scheduled since
    /// it was last up.
    pub open spec fn failures(self) -> nat {
        match self.status {
            TrackerStatus::Reconnecting { failures } => failures as nat,
            _ => 0,
        }
    }

    /// What to do about a lost subscription.
    pub open spec fn recovery(self) -> Recovery {
        if self.status is Failed || !self.policy.allows(self.failures()) {
            Recovery::GiveUp
        } else {
            Recovery::Reconnect { delay_ms: self.policy.delay(self.failures()) as u64 }
        }
    }

    /// The tracker after the subscription was lost.
    pub open spec fn lose_stream(self) -> Tracking {
        if self.recovery() is GiveUp {
            Tracking { status: TrackerStatus::Failed, ..self }
        } else {
            Tracking {
                status: TrackerStatus::Reconnecting {
                    failures: if self.failures() < u32::MAX {
                        (self.failures() + 1) as u32
                    } else {
                        u32::MAX
                    },
                },
                ..self
            }
        }
    }

    /// The tracker after the subscription came up again.
    pub open spec fn resubscribe(self) -> Tracking {
        if self.status is Failed {
            self
        } else {
            Tracking { status: TrackerStatus::Live, ..self }
        }
    }

    /// What a waiter for a head beyond `past_block` learns.
    pub open spec fn wait(self, past_block: u64) -> HeadWait {
        if self.head > past_block {
            HeadWait::Ready(self.head)
        } else if self.status is Failed {
            HeadWait::Failed
        } else {
            HeadWait::Pending
        }
    }

    /// The tracker after one event.
    pub open spec fn step(self, event: TrackerEvent) -> Tracking {
        match event {
            TrackerEvent::Announced(number) => self.announce(number),
            TrackerEvent::StreamLost => self.lose_stream(),
            TrackerEvent::Resubscribed => self.resubscribe(),
        }
    }

    /// The tracker after a sequence of events.
    pub open spec fn run(self, events: Seq<TrackerEvent>) -> Tracking
        decreases events.len(),
    {
        if events.len() == 0 {
            self
        } else {
            self.run(events.drop_last()).step(events.last())
        }
    }
}

/// The head never decreases, whatever happens to the tracker. The policy
/// stays as it is, and a tracker that has failed never changes again.
pub proof fn lemma_head_never_decreases(t: Tracking, events: Seq<TrackerEvent>)
    ensures
        t.run(events).head >= t.head,
        t.run(events).policy == t.policy,
        t.status is Failed ==> t.run(events) == t,
    decreases events.len(),
{
    if events.len() > 0 {
        lemma_head_never_decreases(t, events.drop_last());
    }
}

/// A wait that was answered stays answered: once the head is beyond a
/// block, every later wait for that block returns at once with a head that
/// is beyond it, whatever happened in between.
pub proof fn lemma_ready_stays_ready(t: Tracking, events: Seq<TrackerEvent>, past_block: u64)
    requires
        t.wait(past_block) is Ready,
    ensures
        t.run(events).wait(past_block) == HeadWait::Ready(t.run(events).head),
        t.run(events).head > past_block,
{
    lemma_head_never_decreases(t, events);
}

/// Tracks the chain head and the health of the announcement stream.
#[derive(Debug)]
pub struct ChainHeadTracker {
    head: ChainHead,
    status: TrackerStatus,
    policy: BackoffPolicy,
}

impl View for ChainHeadTracker {
    type V = Tracking;

    closed spec fn view(&self) -> Tracking {
        Tracking { head: self.head.number, status: self.status, policy: self.policy }
    }
}

impl ChainHeadTracker {
    /// A live tracker that knows `head` as the latest block.
    pub fn start(head: u64, policy: BackoffPolicy) -> (tracker: Self)
        ensures
            tracker@ == Tracking::start(head, policy),
    {
        ChainHeadTracker { head: ChainHead { number: head }, status: TrackerStatus::Live, policy }
    }

    /// The head as it is known now.
    pub fn current(&self) -> (head: u64)
        ensures
            head == self@.head,
    {
        self.head.number
    }

    /// Whether the stream is up, down or lost for good.
    pub fn status(&self) -> (status: TrackerStatus)
        ensures
            status == self@.status,
    {
        self.status
    }

    /// Asks for a head beyond `past_block`. The answer is immediate: the
    /// head if it is beyond the block already, else whether waiting for an
    /// announcement can still help.
    pub fn wait_for_advance(&self, past_block: u64) -> (answer: HeadWait)
        ensures
            answer == self@.wait(past_block),
            self@.head > past_block ==> answer == HeadWait::Ready(self@.head),
    {
        if self.head.number > past_block {
            HeadWait::Ready(self.head.number)
        } else {
            match self.status {
                TrackerStatus::Failed => HeadWait::Failed,
                _ => HeadWait::Pending,
            }
        }
    }

    /// Takes an announcement of block `number`. Returns whether the head
    /// advanced, that is, whether waiters may have to be woken. A number at
    /// or below the head changes nothing but the stream's status.
    pub fn observe(&mut self, number: u64) -> (advanced: bool)
        ensures
            final(self)@ == old(self)@.announce(number),
            advanced == (final(self)@.head > old(self)@.head),
    {
        match self.status {
            TrackerStatus::Failed => false,
            _ => {
                self.status = TrackerStatus::Live;
                if number > self.head.number {
                    self.head = ChainHead { number };
                    true
                } else {
                    false
                }
            },
        }
    }

    /// Reports that the subscription ended or failed, or that an attempt to
    /// restore it failed. Says after which delay to subscribe again, or
    /// that the attempts are used up.
    pub fn stream_lost(&mut self) -> (recovery: Recovery)
        ensures
            final(self)@ == old(self)@.lose_stream(),
            recovery == old(self)@.recovery(),
    {
        let failures: u32 = match self.status {
            TrackerStatus::Failed => {
                return Recovery::GiveUp;
            },
            TrackerStatus::Reconnecting { failures } => failures,
            TrackerStatus::Live => 0,
        };
        if !self.policy.permits(failures) {
            self.status = TrackerStatus::Failed;
            return Recovery::GiveUp;
        }
        let delay_ms = self.policy.delay_ms(failures);
        let next: u32 = if failures < u32::MAX {
            failures + 1
        } else {
            u32::MAX
        };
        self.status = TrackerStatus::Reconnecting { failures: next };
        Recovery::Reconnect { delay_ms }
    }

    /// Reports that the subscription is up again.
    pub fn resubscribed(&mut self)
        ensures
            final(self)@ == old(self)@.resubscribe(),
    {
        match self.status {
            TrackerStatus::Failed => {},
            _ => {
                self.status = TrackerStatus::Live;
            },
        }
    }
}

} // verus!
