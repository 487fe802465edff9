//! Admission control: what a fetch has to obtain before its RPC call.
//!
//! Two limits are independent and both must be met. A concurrency permit is
//! taken first, because it is local and cheap; only a caller that holds one
//! waits for a token of the rate limiter. The controller keeps the permit
//! count and the order of the two steps. The wait for the rate limiter is
//! the caller's: it reports each granted token with
//! [`AdmissionController::token_granted`].

use vstd::prelude::*;

verus! {

/// The controller as a mathematical value.
pub struct Admission {
    /// The concurrency limit.
    pub max: nat,
    /// Permits that are out, the reserved one included.
    pub outstanding: nat,
    /// Whether a permit is reserved for a caller that waits for a rate token.
    pub reserved: bool,
    /// Whether admission was cancelled.
    pub cancelled: bool,
}

/// What can happen to the controller.
pub enum AdmissionEvent {
    /// A caller asks to be admitted.
    Poll,
    /// The rate limiter granted one token.
    TokenGranted,
    /// A fetch finished and gave its permit back.
    Released,
    /// Admission is shut down.
    Cancelled,
}

/// What the controller answers.
#[derive(Clone, Copy, Debug, PartialEq, Eq, Structural)]
pub enum AcquireStep {
    /// Every permit is out: wait until a fetch finishes.
    WaitForPermit,
    /// A permit is reserved: wait for a token of the rate limiter.
    WaitForRateToken,
    /// Admission was cancelled.
    Cancelled,
}

impl Admission {
    /// A controller with no permit out.
    pub open spec fn start(max: nat) -> Admission {
        Admission { max, outstanding: 0, reserved: false, cancelled: false }
    }

    /// Never more permits out than the limit; a reservation is one of them.
    pub open spec fn inv(self) -> bool {
        &&& self.max >= 1
        &&& self.outstanding <= self.max
        &&& self.reserved ==> self.outstanding >= 1
        &&& self.cancelled ==> !self.reserved
    }

    /// Permits held by running fetches.
    pub open spec fn in_flight(self) -> nat {
        if self.reserved {
            (self.outstanding - 1) as nat
        } else {
            self.outstanding
        }
    }

    /// The answer to a caller that asks to be admitted.
    pub open spec fn poll_answer(self) -> AcquireStep {
        if self.cancelled {
            AcquireStep::Cancelled
        } else if self.reserved || self.outstanding < self.max {
            AcquireStep::WaitForRateToken
        } else {
            AcquireStep::WaitForPermit
        }
    }

    /// The controller after a caller asked to be admitted.
    pub open spec fn poll(self) -> Admission {
        if !self.cancelled && !self.reserved && self.outstanding < self.max {
            Admission { outstanding: self.outstanding + 1, reserved: true, ..self }
        } else {
            self
        }
    }

    /// Whether a granted rate token admits a fetch.
    pub open spec fn token_admits(self) -> bool {
        self.reserved && !self.cancelled
    }

    /// The controller after the rate limiter granted a token.
    pub open spec fn grant(self) -> Admission {
        if self.token_admits() {
            Admission { reserved: false, ..self }
        } else {
            self
        }
    }

    /// The controller after a fetch gave its permit back.
    pub open spec fn release(self) -> Admission {
        if self.in_flight() > 0 {
            Admission { outstanding: (self.outstanding - 1) as nat, ..self }
        } else {
            self
        }
    }

    /// The controller after cancellation: a reservation is given up.
    pub open spec fn cancel(self) -> Admission {
        Admission {
            outstanding: self.in_flight(),
            reserved: false,
            cancelled: true,
            max: self.max,
        }
    }

    /// The controller after one event.
    pub open spec fn step(self, event: AdmissionEvent) -> Admission {
        match event {
            AdmissionEvent::Poll => self.poll(),
            AdmissionEvent::TokenGranted => self.grant(),
            AdmissionEvent::Released => self.release(),
            AdmissionEvent::Cancelled => self.cancel(),
        }
    }

    /// The controller after a sequence of events.
    pub open spec fn run(self, events: Seq<AdmissionEvent>) -> Admission
        decreases events.len(),
    {
        if events.len() == 0 {
            self
        } else {
            self.run(events.drop_last()).step(events.last())
        }
    }

    /// How many fetches are let in by `events`, starting from this controller.
    pub open spec fn admitted(self, events: Seq<AdmissionEvent>) -> nat
        decreases events.len(),
    {
        if events.len() == 0 {
            0
        } else {
            let before = self.run(events.drop_last());
            let now: nat = if events.last() is TokenGranted && before.token_admits() {
                1
            } else {
                0
            };
            self.admitted(events.drop_last()) + now
        }
    }
}

/// How many of `events` are granted rate tokens.
pub open spec fn tokens_granted(events: Seq<AdmissionEvent>) -> nat
    decreases events.len(),
{
    if events.len() == 0 {
        0
    } else {
        tokens_granted(events.drop_last()) + if events.last() is TokenGranted {
            1nat
        } else {
            0nat
        }
    }
}

/// Bounded concurrency: whatever happens, in whatever order, the permits
/// out never exceed the limit, and so neither do the running fetches.
pub proof fn lemma_never_over_limit(a: Admission, events: Seq<AdmissionEvent>)
    requires
        a.inv(),
    ensures
        a.run(events).inv(),
        a.run(events).max == a.max,
        a.run(events).outstanding <= a.max,
        a.run(events).in_flight() <= a.max,
    decreases events.len(),
{
    if events.len() > 0 {
        lemma_never_over_limit(a, events.drop_last());
    }
}

/// Every admission is paid for with its own rate token: over any stretch
/// of events, from whatever state it starts, no more fetches are let in
/// than rate tokens were granted in it. So fetches start no faster than the
/// rate limiter grants tokens, in every window of time.
pub proof fn lemma_admissions_bounded_by_tokens(a: Admission, events: Seq<AdmissionEvent>)
    ensures
        a.admitted(events) <= tokens_granted(events),
    decreases events.len(),
{
    if events.len() > 0 {
        lemma_admissions_bounded_by_tokens(a, events.drop_last());
    }
}

/// The right of one fetch to run. It is handed out by
/// [`AdmissionController::token_granted`] and taken back by
/// [`AdmissionController::release`]; it can be neither copied nor made
/// elsewhere, so each admission is released at most once.
#[derive(Debug)]
pub struct Permit {
    _sealed: (),
}

/// Admits fetches under a concurrency limit, one rate token each.
#[derive(Debug)]
pub struct AdmissionController {
    max_concurrency: usize,
    outstanding: usize,
    reserved: bool,
    cancelled: bool,
}

impl View for AdmissionController {
    type V = Admission;

    closed spec fn view(&self) -> Admission {
        Admission {
            max: self.max_concurrency as nat,
            outstanding: self.outstanding as nat,
            reserved: self.reserved,
            cancelled: self.cancelled,
        }
    }
}

impl AdmissionController {
    /// The controller's invariant: that of its model.
    pub open spec fn wf(&self) -> bool {
        self@.inv() && self@.max <= usize::MAX
    }

    /// A controller that lets at most `max_concurrency` fetches run at once.
    pub fn new(max_concurrency: usize) -> (controller: Self)
        requires
            max_concurrency >= 1,
        ensures
            controller.wf(),
            controller@ == Admission::start(max_concurrency as nat),
    {
        AdmissionController { max_concurrency, outstanding: 0, reserved: false, cancelled: false }
    }

    /// The concurrency limit.
    pub fn max_concurrency(&self) -> (max: usize)
        ensures
            max == self@.max,
    {
        self.max_concurrency
    }

    /// Permits that are out, a reserved one included.
    pub fn outstanding(&self) -> (n: usize)
        ensures
            n == self@.outstanding,
    {
        self.outstanding
    }

    /// Permits held by running fetches.
    pub fn in_flight(&self) -> (n: usize)
        requires
            self.wf(),
        ensures
            n == self@.in_flight(),
            n <= self@.max,
    {
        if self.reserved {
            self.outstanding - 1
        } else {
            self.outstanding
        }
    }

    /// Whether admission was cancelled.
    pub fn is_cancelled(&self) -> (cancelled: bool)
        ensures
            cancelled == self@.cancelled,
    {
        self.cancelled
    }

    /// Asks for admission. Reserves a permit if one is free and none is
    /// reserved yet, and says what the caller has to wait for.
    pub fn poll_acquire(&mut self) -> (step: AcquireStep)
        requires
            old(self).wf(),
        ensures
            final(self).wf(),
            final(self)@ == old(self)@.poll(),
            step == old(self)@.poll_answer(),
    {
        if self.cancelled {
            AcquireStep::Cancelled
        } else if self.reserved {
            AcquireStep::WaitForRateToken
        } else if self.outstanding < self.max_concurrency {
            self.outstanding = self.outstanding + 1;
            self.reserved = true;
            AcquireStep::WaitForRateToken
        } else {
            AcquireStep::WaitForPermit
        }
    }

    /// Reports one token granted by the rate limiter. Turns the reserved
    /// permit into a [`Permit`]; a token that nobody waits for is dropped.
    pub fn token_granted(&mut self) -> (permit: Option<Permit>)
        requires
            old(self).wf(),
        ensures
            final(self).wf(),
            final(self)@ == old(self)@.grant(),
            permit is Some <==> old(self)@.token_admits(),
    {
        if self.reserved && !self.cancelled {
            self.reserved = false;
            Some(Permit { _sealed: () })
        } else {
            None
        }
    }

    /// Takes a permit back when its fetch has produced a result.
    pub fn release(&mut self, permit: Permit)
        requires
            old(self).wf(),
        ensures
            final(self).wf(),
            final(self)@ == old(self)@.release(),
    {
        let held: usize = if self.reserved {
            self.outstanding - 1
        } else {
            self.outstanding
        };
        if held > 0 {
            self.outstanding = self.outstanding - 1;
        }
    }

    /// Cancels admission: no fetch is admitted from now on, and a
    /// reservation is given up. Running fetches keep their permits.
    pub fn cancel(&mut self)
        requires
            old(self).wf(),
        ensures
            final(self).wf(),
            final(self)@ == old(self)@.cancel(),
    {
        if self.reserved {
            self.outstanding = self.outstanding - 1;
            self.reserved = false;
        }
        self.cancelled = true;
    }
}

} // verus!
