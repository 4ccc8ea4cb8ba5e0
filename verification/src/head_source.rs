//! The finalized-head source: subscribes to the node, resolves each
//! announced head to a full block from the read-only block store, and hands
//! resolved blocks to the metadata workers round-robin. The surrounding task
//! performs the awaits and lookups; every decision is the step function
//! below, so a shutdown broadcast is honoured in bounded time.

use vstd::prelude::*;
use crate::types::Block;

verus! {

/// Lifecycle of the source task.
#[derive(PartialEq, Eq, Structural, Clone, Copy, Debug)]
pub enum SourceState {
    Connecting,
    Subscribed,
    Draining,
    Stopped,
    Failed,
}

/// What the surrounding task observed since the last step.
pub enum SourceEvent {
    Connected,
    Head(u32),
    Body { number: u32, block: Option<Block> },
    Shutdown,
    SubscriptionError,
}

/// What the surrounding task must do next.
pub enum SourceAction {
    AwaitHead,
    LookupBody(u32),
    DispatchBlock(Block),
    WarnMissing(u32),
    DropSubscription,
    ReportFailure,
    Nothing,
}

/// The step relation of the source: next state and required action for each
/// observed event. A shutdown broadcast always drops the subscription at
/// once and drains; a missing body is a warning, never an error; a
/// subscription error fails the task for its supervisor to restart.
pub open spec fn source_step(s: SourceState, e: SourceEvent) -> (SourceState, SourceAction) {
    match (s, e) {
        (SourceState::Stopped, _) => (SourceState::Stopped, SourceAction::Nothing),
        (SourceState::Failed, _) => (SourceState::Failed, SourceAction::Nothing),
        (SourceState::Draining, _) => (SourceState::Stopped, SourceAction::Nothing),
        (_, SourceEvent::Shutdown) => (SourceState::Draining, SourceAction::DropSubscription),
        (_, SourceEvent::SubscriptionError) => (SourceState::Failed, SourceAction::ReportFailure),
        (SourceState::Connecting, SourceEvent::Connected) => (
            SourceState::Subscribed,
            SourceAction::AwaitHead,
        ),
        (SourceState::Subscribed, SourceEvent::Head(n)) => (
            SourceState::Subscribed,
            SourceAction::LookupBody(n),
        ),
        (SourceState::Subscribed, SourceEvent::Body { number, block }) => match block {
            Option::Some(b) => (SourceState::Subscribed, SourceAction::DispatchBlock(b)),
            Option::None => (SourceState::Subscribed, SourceAction::WarnMissing(number)),
        },
        (_, _) => (s, SourceAction::Nothing),
    }
}

/// Executes one step of the source's state machine.
pub fn step(s: SourceState, e: SourceEvent) -> (r: (SourceState, SourceAction))
    ensures
        r == source_step(s, e),
{
    match (s, e) {
        (SourceState::Stopped, _) => (SourceState::Stopped, SourceAction::Nothing),
        (SourceState::Failed, _) => (SourceState::Failed, SourceAction::Nothing),
        (SourceState::Draining, _) => (SourceState::Stopped, SourceAction::Nothing),
        (_, SourceEvent::Shutdown) => (SourceState::Draining, SourceAction::DropSubscription),
        (_, SourceEvent::SubscriptionError) => (SourceState::Failed, SourceAction::ReportFailure),
        (SourceState::Connecting, SourceEvent::Connected) => (
            SourceState::Subscribed,
            SourceAction::AwaitHead,
        ),
        (SourceState::Subscribed, SourceEvent::Head(n)) => (
            SourceState::Subscribed,
            SourceAction::LookupBody(n),
        ),
        (SourceState::Subscribed, SourceEvent::Body { number, block }) => match block {
            Option::Some(b) => (SourceState::Subscribed, SourceAction::DispatchBlock(b)),
            Option::None => (SourceState::Subscribed, SourceAction::WarnMissing(number)),
        },
        (_, _) => (s, SourceAction::Nothing),
    }
}

/// A shutdown broadcast is honoured in bounded time: the very step that
/// observes it drops the subscription, and whatever single event follows,
/// the source is stopped.
pub proof fn lemma_shutdown_bounded(s: SourceState, e: SourceEvent)
    requires
        s == SourceState::Connecting || s == SourceState::Subscribed,
    ensures
        source_step(s, SourceEvent::Shutdown).1 == SourceAction::DropSubscription,
        source_step(s, SourceEvent::Shutdown).0 == SourceState::Draining,
        source_step(source_step(s, SourceEvent::Shutdown).0, e).0 == SourceState::Stopped,
{
}

/// Round-robin choice of the next metadata worker.
pub struct Scheduler {
    next: usize,
    workers: usize,
}

impl Scheduler {
    /// How many workers the scheduler rotates over.
    pub closed spec fn worker_count(&self) -> usize {
        self.workers
    }

    /// The worker the next dispatch goes to.
    pub closed spec fn cursor(&self) -> usize {
        self.next
    }

    /// The rotation is sound: there is at least one worker and the cursor
    /// points at one.
    pub open spec fn wf(&self) -> bool {
        self.worker_count() > 0 && self.cursor() < self.worker_count()
    }

    /// A scheduler over `workers` workers, starting at the first.
    pub fn new(workers: usize) -> (r: Self)
        requires
            workers > 0,
        ensures
            r.worker_count() == workers,
            r.cursor() == 0,
            r.wf(),
    {
        Scheduler { next: 0, workers }
    }

    /// Picks the worker for the next dispatch and advances the rotation.
    pub fn tell_next(&mut self) -> (i: usize)
        requires
            old(self).wf(),
        ensures
            i == old(self).cursor(),
            i < old(self).worker_count(),
            final(self).worker_count() == old(self).worker_count(),
            final(self).cursor() == (old(self).cursor() + 1) % (
            old(self).worker_count() as int),
            final(self).wf(),
    {
        let i = self.next;
        self.next = (self.next + 1) % self.workers;
        i
    }
}

} // verus!
