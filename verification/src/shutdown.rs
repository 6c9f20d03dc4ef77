//! The drain of every PHP thread.
//!
//! Every thread is told to end before any is waited for, so that all of them have the same time
//! to do so. What has not ended when the time is up is interrupted, and then waited for without
//! a limit: the interpreter is torn down as soon as its main thread is let go, and that must not
//! happen under a thread that still runs.
use vstd::prelude::*;

use crate::drain::ClosedDrainGeneration;
use crate::registry;
use crate::registry::{PhpMainThreadView, Registry};
use crate::state;
use crate::state::{State, Wait};
use crate::thread;
use crate::thread::{ForceKillSlot, PhpThread, PhpThreadView, ShutdownStart};

verus! {

/// A thread that was told to end, and the generation that was closed for it.
#[derive(Debug)]
pub struct PendingShutdown {
    pub thread_index: usize,
    pub closed: ClosedDrainGeneration,
}

/// How far a drain has got.
#[derive(Debug, Clone, Copy, PartialEq, Eq, Structural)]
pub enum DrainPhase {
    /// Thread number so many is to be told to end.
    Requesting(usize),
    /// Pending thread number so many is waited for, while there is time.
    Waiting(usize),
    /// Pending thread number so many is interrupted, if it still runs.
    Killing(usize),
    /// Pending thread number so many is waited for.
    Awaiting(usize),
    /// The main thread is waited for.
    StoppingMain,
    Finished,
}

/// What a step of a drain asks for.
#[derive(Debug, Clone, Copy, PartialEq, Eq, Structural)]
pub enum DrainStep {
    /// Nothing: take the next step.
    Again,
    /// Say that this thread had no open generation.
    NotDrainable(usize),
    /// The time that the threads have begins to run.
    GracePeriodStarts,
    /// Wait until this thread's ticket is no longer pending.
    Await { thread_index: usize, ticket: u64 },
    /// Wait until this thread's ticket is no longer pending or the time is up.
    AwaitUntilDeadline { thread_index: usize, ticket: u64 },
    /// Say that this thread is interrupted, and interrupt it.
    ForceKill { thread_index: usize, slot: Option<ForceKillSlot> },
    /// Wait for the main thread.
    AwaitMain(Wait),
    /// All is done, and the registry is empty.
    Finished { destroy_metrics: bool },
}

/// The drain of the threads of a registry.
#[derive(Debug)]
pub struct Drain {
    pub pending: Vec<PendingShutdown>,
    pub phase: DrainPhase,
}

/// The pending threads with their generations.
pub open spec fn pending_view(pending: Seq<PendingShutdown>) -> Seq<(usize, u64)> {
    pending.map_values(|p: PendingShutdown| (p.thread_index, p.closed.generation))
}

/// Whether a pending thread has ended.
pub open spec fn has_ended(registry: Registry, p: (usize, u64)) -> bool {
    registry.threads@[p.0 as int]@.lifecycle.current == State::Done
}

/// Whether a thread became somebody to wait for the end of, and this is the ticket.
pub open spec fn awaited(before: PhpThreadView, ticket: u64, after: PhpThreadView) -> bool {
    &&& ticket == before.lifecycle.issued
    &&& after == (PhpThreadView {
        lifecycle: before.lifecycle.waiting_for(seq![State::Done]),
        ..before
    })
}

impl Drain {
    /// Whether the pending threads are threads of the registry, each once, in their order.
    pub open spec fn well_formed(&self, thread_count: nat) -> bool {
        let p = pending_view(self.pending@);
        let bound = match self.phase {
            DrainPhase::Requesting(i) => i as int,
            _ => thread_count as int,
        };
        &&& bound <= thread_count
        &&& self.phase is StoppingMain || self.phase is Finished ==> p.len() == 0
        &&& forall|i: int| 0 <= i < p.len() ==> (#[trigger] p[i]).0 < bound
        &&& forall|i: int, j: int| 0 <= i < j < p.len() ==> (#[trigger] p[i]).0 < (#[trigger] p[j]).0
    }

    /// Whether the pending threads are threads of this registry.
    pub fn fits(&self, registry: &Registry) -> (r: bool)
        ensures
            r == self.well_formed(registry.threads@.len()),
    {
        let count: usize = registry.threads.len();
        let bound: usize = match self.phase {
            DrainPhase::Requesting(i) => i,
            _ => count,
        };
        if bound > count {
            return false;
        }
        let released = match self.phase {
            DrainPhase::StoppingMain | DrainPhase::Finished => true,
            _ => false,
        };
        if released && self.pending.len() > 0 {
            return false;
        }
        let ghost p = pending_view(self.pending@);
        let mut i: usize = 0;
        while i < self.pending.len()
            invariant
                i <= self.pending@.len(),
                p == pending_view(self.pending@),
                count == registry.threads@.len(),
                bound <= count,
                bound == (match self.phase {
                    DrainPhase::Requesting(i) => i as int,
                    _ => count as int,
                }),
                forall|k: int| 0 <= k < i ==> (#[trigger] p[k]).0 < bound,
                forall|k: int, j: int| 0 <= k < j < i ==> (#[trigger] p[k]).0 < (#[trigger] p[j]).0,
            decreases self.pending@.len() - i,
        {
            assert(p[i as int].0 == self.pending@[i as int].thread_index);
            if self.pending[i].thread_index >= bound {
                return false;
            }
            if i > 0 {
                assert(p[i - 1].0 == self.pending@[i - 1].thread_index);
                if self.pending[i - 1].thread_index >= self.pending[i].thread_index {
                    return false;
                }
            }
            i = i + 1;
        }
        true
    }

    /// Begins a drain: the main thread is shutting down, and no thread has been told yet.
    pub fn begin(registry: &mut Registry) -> (r: Drain)
        ensures
            r.pending@.len() == 0,
            r.phase == DrainPhase::Requesting(0),
            r.well_formed(final(registry).threads@.len()),
            final(registry).threads == old(registry).threads,
            final(registry).metrics_initialized == old(registry).metrics_initialized,
            match old(registry).main {
                Some(main) => final(registry).main matches Some(after) && after@ == (
                PhpMainThreadView {
                    lifecycle: main@.lifecycle.published(State::ShuttingDown),
                    ..main@
                }),
                None => final(registry).main is None,
            },
    {
        match &mut registry.main {
            Some(main) => main.begin_drain(),
            None => {},
        }
        Drain { pending: Vec::new(), phase: DrainPhase::Requesting(0) }
    }

    /// What a step makes of a drain and a registry.
    pub open spec fn stepped(
        before: Drain,
        registry_before: Registry,
        time_is_up: bool,
        r: DrainStep,
        after: Drain,
        registry_after: Registry,
    ) -> bool {
        let p = pending_view(before.pending@);
        let threads = registry_before.threads@;
        match before.phase {
            DrainPhase::Requesting(i) => Drain::requested(
                before,
                registry_before,
                i,
                r,
                after,
                registry_after,
            ),
            DrainPhase::Waiting(k) => {
                &&& pending_view(after.pending@) == p
                &&& if k >= p.len() {
                    r == DrainStep::Again && after.phase == DrainPhase::Killing(0) && registry_after
                        == registry_before
                } else if has_ended(registry_before, p[k as int]) || time_is_up {
                    r == DrainStep::Again && after.phase == DrainPhase::Waiting((k + 1) as usize)
                        && registry_after == registry_before
                } else {
                    &&& r matches DrainStep::AwaitUntilDeadline { thread_index, ticket }
                    &&& thread_index == p[k as int].0
                    &&& after.phase == before.phase
                    &&& registry::only_thread_changed(registry_before, registry_after, thread_index as int)
                    &&& awaited(
                        threads[thread_index as int]@,
                        ticket,
                        registry_after.threads@[thread_index as int]@,
                    )
                }
            },
            DrainPhase::Killing(k) => {
                &&& pending_view(after.pending@) == p
                &&& registry_after == registry_before
                &&& if k >= p.len() {
                    r == DrainStep::Again && after.phase == DrainPhase::Awaiting(0)
                } else {
                    &&& after.phase == DrainPhase::Killing((k + 1) as usize)
                    &&& r == if has_ended(registry_before, p[k as int]) {
                        DrainStep::Again
                    } else {
                        DrainStep::ForceKill {
                            thread_index: p[k as int].0,
                            slot: threads[p[k as int].0 as int]@.force_kill,
                        }
                    }
                }
            },
            DrainPhase::Awaiting(k) => if k < p.len() {
                &&& pending_view(after.pending@) == p
                &&& if has_ended(registry_before, p[k as int]) {
                    r == DrainStep::Again && after.phase == DrainPhase::Awaiting((k + 1) as usize)
                        && registry_after == registry_before
                } else {
                    &&& r matches DrainStep::Await { thread_index, ticket }
                    &&& thread_index == p[k as int].0
                    &&& after.phase == before.phase
                    &&& registry::only_thread_changed(registry_before, registry_after, thread_index as int)
                    &&& awaited(
                        threads[thread_index as int]@,
                        ticket,
                        registry_after.threads@[thread_index as int]@,
                    )
                }
            } else if exists|j: int|
                0 <= j < p.len() && !has_ended(registry_before, #[trigger] p[j]) {
                &&& pending_view(after.pending@) == p
                &&& r == DrainStep::Again
                &&& after.phase matches DrainPhase::Awaiting(j) && j < p.len() && !has_ended(
                    registry_before,
                    p[j as int],
                )
                &&& registry_after == registry_before
            } else {
                Drain::released(before, registry_before, r, after, registry_after)
            },
            DrainPhase::StoppingMain => {
                &&& pending_view(after.pending@) == p
                &&& if registry_before.main matches Some(main) && main@.lifecycle.current
                    != State::Reserved {
                    &&& r == DrainStep::AwaitMain(
                        Wait::Pending(registry_before.main->0@.lifecycle.issued as u64),
                    )
                    &&& after.phase == before.phase
                    &&& registry_after.main matches Some(after_main) && after_main@ == (
                    PhpMainThreadView {
                        lifecycle: registry_before.main->0@.lifecycle.waiting_for(
                            seq![State::Reserved],
                        ),
                        ..registry_before.main->0@
                    })
                    &&& registry_after.threads == registry_before.threads
                    &&& registry_after.metrics_initialized == registry_before.metrics_initialized
                } else {
                    &&& r == (DrainStep::Finished {
                        destroy_metrics: registry_before.metrics_initialized,
                    })
                    &&& after.phase == DrainPhase::Finished
                    &&& registry_after.main is None
                    &&& registry_after.threads@.len() == 0
                    &&& !registry_after.metrics_initialized
                }
            },
            DrainPhase::Finished => {
                &&& r == (DrainStep::Finished { destroy_metrics: false })
                &&& pending_view(after.pending@) == p
                &&& after.phase == before.phase
                &&& registry_after == registry_before
            },
        }
    }

    /// What telling thread number `i` to end comes to.
    pub open spec fn requested(
        before: Drain,
        registry_before: Registry,
        i: usize,
        r: DrainStep,
        after: Drain,
        registry_after: Registry,
    ) -> bool {
        let p = pending_view(before.pending@);
        if i >= registry_before.threads@.len() {
            &&& r == DrainStep::GracePeriodStarts
            &&& after.phase == DrainPhase::Waiting(0)
            &&& pending_view(after.pending@) == p
            &&& registry_after == registry_before
        } else {
            &&& registry::only_thread_changed(registry_before, registry_after, i as int)
            &&& exists|start: ShutdownStart| #[trigger]
                thread::shutdown_begun(
                    registry_before.threads@[i as int]@,
                    start,
                    registry_after.threads@[i as int]@,
                ) && match start {
                    ShutdownStart::NothingToDo => r == DrainStep::Again && after.phase
                        == DrainPhase::Requesting((i + 1) as usize) && pending_view(after.pending@)
                        == p,
                    ShutdownStart::Later(ticket) => r == (DrainStep::Await {
                        thread_index: i,
                        ticket,
                    }) && after.phase == before.phase && pending_view(after.pending@) == p,
                    ShutdownStart::NotDrainable => r == DrainStep::NotDrainable(i) && after.phase
                        == DrainPhase::Requesting((i + 1) as usize) && pending_view(after.pending@)
                        == p,
                    ShutdownStart::Started(closed) => r == DrainStep::Again && after.phase
                        == DrainPhase::Requesting((i + 1) as usize) && pending_view(after.pending@)
                        == p.push((i, closed.generation)),
                }
        }
    }

    /// The pending threads, all of which have ended, are reserved again; then, and only then,
    /// the main thread is let go.
    pub open spec fn released(
        before: Drain,
        registry_before: Registry,
        r: DrainStep,
        after: Drain,
        registry_after: Registry,
    ) -> bool {
        let p = pending_view(before.pending@);
        &&& forall|j: int| 0 <= j < p.len() ==> has_ended(registry_before, #[trigger] p[j])
        &&& after.pending@.len() == 0
        &&& after.phase == DrainPhase::StoppingMain
        &&& registry_after.metrics_initialized == registry_before.metrics_initialized
        &&& Drain::threads_reserved(p, registry_before.threads@, registry_after.threads@)
        &&& match registry_before.main {
            Some(main) => {
                &&& r == DrainStep::AwaitMain(Wait::Pending(main@.lifecycle.issued as u64))
                &&& registry_after.main matches Some(after_main) && after_main@ == (
                PhpMainThreadView {
                    lifecycle: main@.lifecycle.published(State::Done).waiting_for(
                        seq![State::Reserved],
                    ),
                    ..main@
                })
            },
            None => r == DrainStep::Again && registry_after.main is None,
        }
    }

    /// Whether exactly the pending threads were made reserved again.
    pub open spec fn threads_reserved(
        p: Seq<(usize, u64)>,
        before: Seq<PhpThread>,
        after: Seq<PhpThread>,
    ) -> bool {
        &&& after.len() == before.len()
        &&& forall|j: int|
            0 <= j < p.len() ==> thread::shutdown_finished(
                before[(#[trigger] p[j]).0 as int]@,
                p[j].1,
                after[p[j].0 as int]@,
            )
        &&& forall|i: int|
            0 <= i < before.len() && (forall|j: int| 0 <= j < p.len() ==> (#[trigger] p[j]).0 != i)
                ==> #[trigger] after[i] == before[i]
    }

    /// One step of the drain. `time_is_up`: the time that the threads have is over.
    pub fn step(&mut self, registry: &mut Registry, time_is_up: bool) -> (r: DrainStep)
        requires
            old(self).well_formed(old(registry).threads@.len()),
            old(registry).can_wait_spec(),
        ensures
            Drain::stepped(
                *old(self),
                *old(registry),
                time_is_up,
                r,
                *final(self),
                *final(registry),
            ),
            final(self).well_formed(final(registry).threads@.len()),
    {
        match self.phase {
            DrainPhase::Requesting(i) => self.request(registry, i),
            DrainPhase::Waiting(k) => {
                if k >= self.pending.len() {
                    self.phase = DrainPhase::Killing(0);
                    return DrainStep::Again;
                }
                assert(pending_view(self.pending@)[k as int].0
                    == self.pending@[k as int].thread_index);
                let thread_index: usize = self.pending[k].thread_index;
                if registry.threads[thread_index].state() == State::Done || time_is_up {
                    self.phase = DrainPhase::Waiting(k + 1);
                    return DrainStep::Again;
                }
                let ticket: u64 = await_end(registry, thread_index);
                DrainStep::AwaitUntilDeadline { thread_index, ticket }
            },
            DrainPhase::Killing(k) => {
                if k >= self.pending.len() {
                    self.phase = DrainPhase::Awaiting(0);
                    return DrainStep::Again;
                }
                assert(pending_view(self.pending@)[k as int].0
                    == self.pending@[k as int].thread_index);
                let thread_index: usize = self.pending[k].thread_index;
                self.phase = DrainPhase::Killing(k + 1);
                if registry.threads[thread_index].state() == State::Done {
                    return DrainStep::Again;
                }
                DrainStep::ForceKill {
                    thread_index,
                    slot: registry.threads[thread_index].force_kill_slot(),
                }
            },
            DrainPhase::Awaiting(k) => {
                if k < self.pending.len() {
                    assert(pending_view(self.pending@)[k as int].0
                        == self.pending@[k as int].thread_index);
                    let thread_index: usize = self.pending[k].thread_index;
                    if registry.threads[thread_index].state() == State::Done {
                        self.phase = DrainPhase::Awaiting(k + 1);
                        return DrainStep::Again;
                    }
                    let ticket: u64 = await_end(registry, thread_index);
                    return DrainStep::Await { thread_index, ticket };
                }
                match self.first_running(registry) {
                    Some(j) => {
                        self.phase = DrainPhase::Awaiting(j);
                        DrainStep::Again
                    },
                    None => self.release(registry),
                }
            },
            DrainPhase::StoppingMain => {
                let states = [State::Reserved];
                assert(states@ =~= seq![State::Reserved]);
                match &mut registry.main {
                    Some(main) => if main.state() != State::Reserved {
                        return DrainStep::AwaitMain(main.wait_for(states.as_slice()));
                    },
                    None => {},
                }
                let destroy_metrics = registry.metrics_initialized;
                registry.clear();
                self.phase = DrainPhase::Finished;
                DrainStep::Finished { destroy_metrics }
            },
            DrainPhase::Finished => DrainStep::Finished { destroy_metrics: false },
        }
    }

    /// Tells thread number `i` to end.
    fn request(&mut self, registry: &mut Registry, i: usize) -> (r: DrainStep)
        requires
            old(self).well_formed(old(registry).threads@.len()),
            old(registry).can_wait_spec(),
            old(self).phase == DrainPhase::Requesting(i),
        ensures
            Drain::requested(*old(self), *old(registry), i, r, *final(self), *final(registry)),
            final(self).well_formed(final(registry).threads@.len()),
    {
        if i >= registry.threads.len() {
            self.phase = DrainPhase::Waiting(0);
            return DrainStep::GracePeriodStarts;
        }
        let start = registry.threads[i].begin_shutdown();
        let ghost g = start;
        assert(thread::shutdown_begun(
            old(registry).threads@[i as int]@,
            g,
            registry.threads@[i as int]@,
        ));
        match start {
            ShutdownStart::NothingToDo => {
                self.phase = DrainPhase::Requesting(i + 1);
                DrainStep::Again
            },
            ShutdownStart::Later(ticket) => DrainStep::Await { thread_index: i, ticket },
            ShutdownStart::NotDrainable => {
                self.phase = DrainPhase::Requesting(i + 1);
                DrainStep::NotDrainable(i)
            },
            ShutdownStart::Started(closed) => {
                let ghost p = pending_view(self.pending@);
                let ghost generation = closed.generation;
                self.pending.push(PendingShutdown { thread_index: i, closed });
                self.phase = DrainPhase::Requesting(i + 1);
                assert(pending_view(self.pending@) =~= p.push((i, generation)));
                DrainStep::Again
            },
        }
    }

    /// The first pending thread that has not ended.
    fn first_running(&self, registry: &Registry) -> (r: Option<usize>)
        requires
            self.well_formed(registry.threads@.len()),
            !(self.phase is Requesting),
        ensures
            match r {
                Some(j) => j < self.pending@.len() && !has_ended(
                    *registry,
                    pending_view(self.pending@)[j as int],
                ),
                None => forall|j: int|
                    0 <= j < self.pending@.len() ==> has_ended(
                        *registry,
                        #[trigger] pending_view(self.pending@)[j],
                    ),
            },
    {
        let mut j: usize = 0;
        while j < self.pending.len()
            invariant
                j <= self.pending@.len(),
                self.well_formed(registry.threads@.len()),
                !(self.phase is Requesting),
                forall|k: int|
                    0 <= k < j ==> has_ended(*registry, #[trigger] pending_view(self.pending@)[k]),
            decreases self.pending@.len() - j,
        {
            assert(pending_view(self.pending@)[j as int].0
                == self.pending@[j as int].thread_index);
            if registry.threads[self.pending[j].thread_index].state() != State::Done {
                return Some(j);
            }
            j = j + 1;
        }
        None
    }

    /// Makes the pending threads reserved again and lets the main thread go.
    fn release(&mut self, registry: &mut Registry) -> (r: DrainStep)
        requires
            old(self).well_formed(old(registry).threads@.len()),
            old(registry).can_wait_spec(),
            !(old(self).phase is Requesting),
            forall|j: int|
                0 <= j < old(self).pending@.len() ==> has_ended(
                    *old(registry),
                    #[trigger] pending_view(old(self).pending@)[j],
                ),
        ensures
            Drain::released(*old(self), *old(registry), r, *final(self), *final(registry)),
            final(self).well_formed(final(registry).threads@.len()),
    {
        let ghost p = pending_view(self.pending@);
        let ghost before = registry.threads@;
        let ghost mut done: int = 0;
        while self.pending.len() > 0
            invariant
                p == pending_view(old(self).pending@),
                old(self).well_formed(before.len()),
                !(old(self).phase is Requesting),
                0 <= done <= p.len(),
                self.pending@.len() == p.len() - done,
                pending_view(self.pending@) == p.skip(done),
                registry.threads@.len() == before.len(),
                registry.main == old(registry).main,
                registry.metrics_initialized == old(registry).metrics_initialized,
                forall|j: int|
                    0 <= j < done ==> thread::shutdown_finished(
                        before[(#[trigger] p[j]).0 as int]@,
                        p[j].1,
                        registry.threads@[p[j].0 as int]@,
                    ),
                forall|i: int|
                    0 <= i < before.len() && (forall|j: int|
                        0 <= j < done ==> (#[trigger] p[j]).0 != i) ==> #[trigger] registry.threads@[i]
                        == before[i],
            decreases self.pending@.len(),
        {
            let ghost threads = registry.threads@;
            let ghost rest = self.pending@;
            let next = self.pending.remove(0);
            proof {
                assert(pending_view(rest)[0] == p[done]);
                assert(pending_view(self.pending@) =~= pending_view(rest).remove(0));
                assert(p.skip(done).remove(0) =~= p.skip(done + 1));
                assert forall|j: int| 0 <= j < done implies (#[trigger] p[j]).0
                    != next.thread_index by {
                    assert(p[j].0 < p[done].0);
                }
            }
            registry.threads[next.thread_index].finish_shutdown(next.closed);
            proof {
                assert forall|j: int| 0 <= j < done + 1 implies thread::shutdown_finished(
                    before[(#[trigger] p[j]).0 as int]@,
                    p[j].1,
                    registry.threads@[p[j].0 as int]@,
                ) by {
                    if j < done {
                        assert(registry.threads@[p[j].0 as int] == threads[p[j].0 as int]);
                    }
                }
                assert forall|i: int|
                    0 <= i < before.len() && (forall|j: int|
                        0 <= j < done + 1 ==> (#[trigger] p[j]).0 != i) implies #[trigger] registry.threads@[i]
                    == before[i] by {
                    assert(p[done].0 != i);
                    assert(threads[i] == before[i]);
                }
                done = done + 1;
            }
        }
        assert(Drain::threads_reserved(p, before, registry.threads@));
        self.phase = DrainPhase::StoppingMain;
        let states = [State::Reserved];
        assert(states@ =~= seq![State::Reserved]);
        match &mut registry.main {
            Some(main) => {
                main.release();
                DrainStep::AwaitMain(main.wait_for(states.as_slice()))
            },
            None => DrainStep::Again,
        }
    }
}

/// Starts to wait for a thread's end.
fn await_end(registry: &mut Registry, thread_index: usize) -> (ticket: u64)
    requires
        thread_index < old(registry).threads@.len(),
        old(registry).can_wait_spec(),
        old(registry).threads@[thread_index as int]@.lifecycle.current != State::Done,
    ensures
        registry::only_thread_changed(*old(registry), *final(registry), thread_index as int),
        awaited(
            old(registry).threads@[thread_index as int]@,
            ticket,
            final(registry).threads@[thread_index as int]@,
        ),
{
    let states = [State::Done];
    assert(states@ =~= seq![State::Done]);
    match registry.threads[thread_index].wait_for(states.as_slice()) {
        Wait::Pending(ticket) => ticket,
        Wait::Reached => 0,
    }
}

/// The interpreter is torn down under no thread that runs: whenever a step of a drain lets the
/// main thread go, every thread that was told to end has ended and is reserved again.
pub proof fn lemma_main_is_released_last(
    before: Drain,
    registry_before: Registry,
    time_is_up: bool,
    r: DrainStep,
    after: Drain,
    registry_after: Registry,
)
    requires
        Drain::stepped(before, registry_before, time_is_up, r, after, registry_after),
        before.well_formed(registry_before.threads@.len()),
        registry_before.main matches Some(main) && main@.lifecycle.current != State::Done,
        registry_after.main matches Some(main) && main@.lifecycle.current == State::Done,
    ensures
        forall|j: int|
            0 <= j < before.pending@.len() ==> {
                let i = (#[trigger] before.pending@[j]).thread_index as int;
                &&& registry_before.threads@[i]@.lifecycle.current == State::Done
                &&& registry_after.threads@[i]@.lifecycle.current == State::Reserved
            },
{
    let p = pending_view(before.pending@);
    assert forall|j: int| 0 <= j < before.pending@.len() implies {
        let i = (#[trigger] before.pending@[j]).thread_index as int;
        &&& registry_before.threads@[i]@.lifecycle.current == State::Done
        &&& registry_after.threads@[i]@.lifecycle.current == State::Reserved
    } by {
        assert(p[j].0 == before.pending@[j].thread_index);
    }
}

/// A drain leaves nobody behind. It goes from thread to thread in order and misses none; the time
/// that a thread has is over only when time is up or the thread has ended; exactly those that
/// still run are then interrupted; and none is passed over that still runs when the drain waits
/// for good.
pub proof fn lemma_drain_leaves_nobody_behind(
    before: Drain,
    registry_before: Registry,
    time_is_up: bool,
    r: DrainStep,
    after: Drain,
    registry_after: Registry,
    k: usize,
)
    requires
        Drain::stepped(before, registry_before, time_is_up, r, after, registry_after),
        before.well_formed(registry_before.threads@.len()),
        before.pending@.len() < usize::MAX,
    ensures
        ({
            let runs = k < before.pending@.len() && registry_before.threads@[before.pending@[k as
                int].thread_index as int]@.lifecycle.current != State::Done;
            let index = before.pending@[k as int].thread_index;
            &&& before.phase == DrainPhase::Waiting(k) && runs && !time_is_up ==> after.phase
                == before.phase && (r matches DrainStep::AwaitUntilDeadline { thread_index, .. }
                && thread_index == index)
            &&& before.phase == DrainPhase::Waiting(k) && k < before.pending@.len() && (!runs
                || time_is_up) ==> after.phase == DrainPhase::Waiting((k + 1) as usize)
            &&& before.phase == DrainPhase::Waiting(k) && k >= before.pending@.len()
                ==> after.phase == DrainPhase::Killing(0)
            &&& before.phase == DrainPhase::Killing(k) && runs ==> (r
                matches DrainStep::ForceKill { thread_index, slot } && thread_index == index && slot
                == registry_before.threads@[index as int]@.force_kill)
            &&& before.phase == DrainPhase::Killing(k) && k < before.pending@.len() && !runs ==> r
                == DrainStep::Again
            &&& before.phase == DrainPhase::Killing(k) && k < before.pending@.len() ==> after.phase
                == DrainPhase::Killing((k + 1) as usize)
            &&& before.phase == DrainPhase::Awaiting(k) && runs ==> after.phase == before.phase && (r
                matches DrainStep::Await { thread_index, .. } && thread_index == index)
            &&& after.phase == DrainPhase::StoppingMain && before.phase != DrainPhase::StoppingMain
                ==> forall|j: int|
                0 <= j < before.pending@.len() ==> registry_before.threads@[(
                #[trigger] before.pending@[j]).thread_index as int]@.lifecycle.current
                    == State::Done
            &&& r is Finished && before.phase == DrainPhase::StoppingMain
                ==> registry_after.main is None && registry_after.threads@.len() == 0
            &&& r is Finished && before.phase == DrainPhase::StoppingMain
                && registry_before.main is Some
                ==> registry_before.main->0@.lifecycle.current == State::Reserved
        }),
{
    let p = pending_view(before.pending@);
    if k < before.pending@.len() {
        assert(p[k as int].0 == before.pending@[k as int].thread_index);
    }
    if after.phase == DrainPhase::StoppingMain && before.phase != DrainPhase::StoppingMain {
        assert forall|j: int| 0 <= j < before.pending@.len() implies registry_before.threads@[(
        #[trigger] before.pending@[j]).thread_index as int]@.lifecycle.current == State::Done by {
            assert(p[j].0 == before.pending@[j].thread_index);
            assert(has_ended(registry_before, p[j]));
        }
    }
}

/// A drain tells every thread to end, one after another, before it waits for any: a thread that
/// rests is told, and is then among those that are waited for.
pub proof fn lemma_drain_tells_every_thread(
    before: Drain,
    registry_before: Registry,
    time_is_up: bool,
    r: DrainStep,
    after: Drain,
    registry_after: Registry,
    i: usize,
)
    requires
        Drain::stepped(before, registry_before, time_is_up, r, after, registry_after),
        before.phase == DrainPhase::Requesting(i),
    ensures
        i >= registry_before.threads@.len() ==> after.phase == DrainPhase::Waiting(0) && r
            == DrainStep::GracePeriodStarts && pending_view(after.pending@) == pending_view(
            before.pending@,
        ),
        i < registry_before.threads@.len() ==> {
            let t = registry_before.threads@[i as int]@;
            let rests = t.lifecycle.current == State::Ready || t.lifecycle.current
                == State::Inactive;
            &&& rests && t.drain.is_open() ==> {
                &&& after.phase == DrainPhase::Requesting((i + 1) as usize)
                &&& registry_after.threads@[i as int]@.lifecycle.current == State::ShuttingDown
                &&& pending_view(after.pending@) == pending_view(before.pending@).push(
                    (i, t.drain.tag()),
                )
            }
            &&& after.phase == before.phase || after.phase == DrainPhase::Requesting(
                (i + 1) as usize,
            )
            &&& forall|k: int|
                0 <= k < registry_before.threads@.len() && k != i
                    ==> #[trigger] registry_after.threads@[k] == registry_before.threads@[k]
        },
{
}

/// Whoever waits for a thread's end is woken when the thread is done, and not before.
pub proof fn lemma_end_is_waited_for(
    before: PhpThreadView,
    ticket: u64,
    after: PhpThreadView,
    published: State,
)
    requires
        awaited(before, ticket, after),
        before.lifecycle.current != State::Done,
        before.lifecycle.well_formed(),
        before.lifecycle.issued < u64::MAX,
    ensures
        state::pending(after.lifecycle.waiters, ticket),
        state::pending(after.lifecycle.published(published).waiters, ticket) == (published
            != State::Done),
{
    let done = seq![State::Done];
    assert(done[0] == State::Done);
    state::lemma_ticket_pending_until_published(before.lifecycle, done, published);
}

} // verus!
