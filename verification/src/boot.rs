//! The start of the PHP threads, once the main thread is ready and there is room for them.
//!
//! They are started in their order, each once all before it are inactive. Where one cannot be
//! started, none behind it is, and those that were are to be drained.
use vstd::prelude::*;

use crate::registry;
use crate::registry::Registry;
use crate::state;
use crate::state::{State, Wait};
use crate::thread;
use crate::thread::{PhpThreadView, ThreadError};

verus! {

/// What the start of the threads is at.
#[derive(Debug, Clone, Copy, PartialEq, Eq, Structural)]
pub enum BootPhase {
    /// The next thread is to be started, once all before it are inactive.
    Starting,
    /// The interpreter's thread for the next one is being made.
    Launching,
    /// A thread could not be started.
    Failed(ThreadError),
}

/// What the next step of a start is taken on.
#[derive(Debug, Clone, Copy, PartialEq, Eq, Structural)]
pub enum BootEvent {
    /// Nothing but that it is time for it.
    Go,
    /// The interpreter's thread was made, or was not.
    Launched(bool),
}

/// What a step of a start asks for.
#[derive(Debug, Clone, Copy, PartialEq, Eq, Structural)]
pub enum BootStep {
    /// Nothing: take the next step.
    Again,
    /// Make the interpreter's thread for this one, and say whether that went well.
    Launch(usize),
    /// It is still to be said whether the interpreter's thread for this one was made.
    Launching(usize),
    /// Wait until this thread's ticket is no longer pending.
    Await { thread_index: usize, ticket: u64 },
    /// Drain all threads; this is why.
    RollBack(ThreadError),
    /// All threads that are to be started are inactive.
    Finished,
}

/// The start of the threads of a registry.
#[derive(Debug, Clone, Copy, PartialEq, Eq, Structural)]
pub struct Boot {
    /// How many are to be started.
    pub num_threads: usize,
    /// How many have been started: the number of the thread that is next.
    pub next: usize,
    pub phase: BootPhase,
}

/// How many of so many threads are started: as many as are to be, as far as there are so many.
pub open spec fn start_count(num_threads: usize, thread_count: nat) -> int {
    if num_threads < thread_count {
        num_threads as int
    } else {
        thread_count as int
    }
}

/// Whether the first so many threads are inactive.
pub open spec fn inactive_up_to(registry: Registry, count: int) -> bool {
    forall|i: int|
        0 <= i < count ==> (#[trigger] registry.threads@[i])@.lifecycle.current == State::Inactive
}

/// Whether the threads from a number on were never used.
pub open spec fn fresh_from(registry: Registry, start: int) -> bool {
    forall|i: int|
        start <= i < registry.threads@.len() ==> thread::is_fresh(
            (#[trigger] registry.threads@[i])@,
            i,
        )
}

impl Boot {
    /// Whether no more threads were started than are to be, and the others were never used.
    pub open spec fn well_formed(&self, registry: Registry) -> bool {
        let count = start_count(self.num_threads, registry.threads@.len());
        &&& self.next <= count
        &&& self.phase is Launching ==> self.next < count
        &&& fresh_from(registry, count)
    }

    /// Whether no more threads of this registry were started than are to be, and the others were
    /// never used.
    pub fn fits(&self, registry: &Registry) -> (r: bool)
        ensures
            r == self.well_formed(*registry),
    {
        let count: usize = count_to_start(self.num_threads, registry);
        if self.next > count || (self.phase == BootPhase::Launching && self.next == count) {
            return false;
        }
        unused_from(registry, count)
    }

    /// Begins the start of as many threads as the main thread is to have. There is nothing to
    /// begin without a main thread, or where a thread that is not among them was used.
    pub fn begin(registry: &Registry) -> (r: Option<Boot>)
        ensures
            match r {
                Some(boot) => {
                    &&& registry.main matches Some(main) && boot == (Boot {
                        num_threads: main@.num_threads,
                        next: 0,
                        phase: BootPhase::Starting,
                    })
                    &&& boot.well_formed(*registry)
                },
                None => registry.main matches Some(main) ==> !fresh_from(
                    *registry,
                    start_count(main@.num_threads, registry.threads@.len()),
                ),
            },
    {
        match &registry.main {
            Some(main) => {
                let boot = Boot {
                    num_threads: main.num_threads(),
                    next: 0,
                    phase: BootPhase::Starting,
                };
                if boot.fits(registry) {
                    Some(boot)
                } else {
                    None
                }
            },
            None => None,
        }
    }

    /// What a step makes of a start and a registry.
    pub open spec fn stepped(
        before: Boot,
        registry_before: Registry,
        event: BootEvent,
        r: BootStep,
        after: Boot,
        registry_after: Registry,
    ) -> bool {
        match before.phase {
            BootPhase::Failed(error) => {
                &&& r == BootStep::RollBack(error)
                &&& after == before
                &&& registry_after == registry_before
            },
            BootPhase::Launching => match event {
                BootEvent::Go => {
                    &&& r == BootStep::Launching(before.next)
                    &&& after == before
                    &&& registry_after == registry_before
                },
                BootEvent::Launched(launched) => Boot::launched(
                    before,
                    registry_before,
                    launched,
                    r,
                    after,
                    registry_after,
                ),
            },
            BootPhase::Starting => if !inactive_up_to(registry_before, before.next as int) {
                &&& after == before
                &&& r matches BootStep::Await { thread_index, ticket }
                &&& thread_index < before.next
                &&& inactive_up_to(registry_before, thread_index as int)
                &&& registry::only_thread_changed(
                    registry_before,
                    registry_after,
                    thread_index as int,
                )
                &&& awaited(
                    registry_before.threads@[thread_index as int]@,
                    ticket,
                    registry_after.threads@[thread_index as int]@,
                )
            } else if before.next >= start_count(
                before.num_threads,
                registry_before.threads@.len(),
            ) {
                &&& r == BootStep::Finished
                &&& after == before
                &&& registry_after == registry_before
            } else {
                Boot::started(before, registry_before, r, after, registry_after)
            },
        }
    }

    /// What the begin of the next thread's boot comes to.
    pub open spec fn started(
        before: Boot,
        registry_before: Registry,
        r: BootStep,
        after: Boot,
        registry_after: Registry,
    ) -> bool {
        let old_thread = registry_before.threads@[before.next as int]@;
        let new_thread = registry_after.threads@[before.next as int]@;
        let current = old_thread.lifecycle.current;
        &&& registry::only_thread_changed(registry_before, registry_after, before.next as int)
        &&& if current == State::Reserved || current == State::BootRequested {
            &&& r == BootStep::Launch(before.next)
            &&& after == (Boot { phase: BootPhase::Launching, ..before })
            &&& thread::boot_begun(old_thread, new_thread)
        } else {
            let error = ThreadError::InvalidBootState {
                thread_index: old_thread.index,
                state: current,
            };
            &&& r == BootStep::RollBack(error)
            &&& after == (Boot { phase: BootPhase::Failed(error), ..before })
            &&& new_thread == old_thread
        }
    }

    /// What it comes to that the interpreter's thread for the next one was made, or was not. One
    /// that was not made is reserved again.
    pub open spec fn launched(
        before: Boot,
        registry_before: Registry,
        launched: bool,
        r: BootStep,
        after: Boot,
        registry_after: Registry,
    ) -> bool {
        let old_thread = registry_before.threads@[before.next as int]@;
        let new_thread = registry_after.threads@[before.next as int]@;
        &&& registry::only_thread_changed(registry_before, registry_after, before.next as int)
        &&& if launched {
            &&& after.num_threads == before.num_threads
            &&& after.next == before.next + 1
            &&& after.phase == BootPhase::Starting
            &&& if old_thread.lifecycle.current == State::Inactive {
                r == BootStep::Again && new_thread == old_thread
            } else {
                &&& r matches BootStep::Await { thread_index, ticket }
                &&& thread_index == before.next
                &&& awaited(old_thread, ticket, new_thread)
            }
        } else {
            let error = ThreadError::PhpThreadCreation { thread_index: old_thread.index };
            &&& r == BootStep::RollBack(error)
            &&& after == (Boot { phase: BootPhase::Failed(error), ..before })
            &&& new_thread == (PhpThreadView {
                lifecycle: old_thread.lifecycle.published(State::Reserved),
                ..old_thread
            })
        }
    }

    /// One step of the start. A thread is started only where all before it are inactive, and
    /// none behind one that could not be. It is over only where exactly those that are to be
    /// started are inactive and the others were never used.
    pub fn step(&mut self, registry: &mut Registry, event: BootEvent) -> (r: BootStep)
        requires
            old(self).well_formed(*old(registry)),
            old(registry).can_wait_spec(),
        ensures
            Boot::stepped(*old(self), *old(registry), event, r, *final(self), *final(registry)),
            final(self).well_formed(*final(registry)),
            ({
                let count = start_count(old(self).num_threads, old(registry).threads@.len());
                &&& r matches BootStep::Launch(i) ==> i == old(self).next && i < count
                    && inactive_up_to(*final(registry), i as int)
                &&& r matches BootStep::RollBack(error) ==> final(self).phase
                    == BootPhase::Failed(error) && final(self).next == old(self).next
                &&& r is Finished ==> inactive_up_to(*final(registry), count) && fresh_from(
                    *final(registry),
                    count,
                )
            }),
    {
        match self.phase {
            BootPhase::Failed(error) => BootStep::RollBack(error),
            BootPhase::Launching => match event {
                BootEvent::Go => BootStep::Launching(self.next),
                BootEvent::Launched(launched) => self.conclude(registry, launched),
            },
            BootPhase::Starting => {
                match first_not_inactive(registry, self.next) {
                    Some(i) => {
                        let ticket: u64 = await_inactive(registry, i);
                        BootStep::Await { thread_index: i, ticket }
                    },
                    None => if self.next >= count_to_start(self.num_threads, registry) {
                        BootStep::Finished
                    } else {
                        self.start(registry)
                    },
                }
            },
        }
    }

    /// Begins the boot of the next thread.
    fn start(&mut self, registry: &mut Registry) -> (r: BootStep)
        requires
            old(self).well_formed(*old(registry)),
            old(self).next < start_count(old(self).num_threads, old(registry).threads@.len()),
        ensures
            Boot::started(*old(self), *old(registry), r, *final(self), *final(registry)),
            final(self).well_formed(*final(registry)),
    {
        match registry.threads[self.next].begin_boot() {
            Ok(_) => {
                self.phase = BootPhase::Launching;
                BootStep::Launch(self.next)
            },
            Err(error) => {
                self.phase = BootPhase::Failed(error);
                BootStep::RollBack(error)
            },
        }
    }

    /// Goes on with the boot of the next thread, by whether the interpreter's was made.
    fn conclude(&mut self, registry: &mut Registry, launched: bool) -> (r: BootStep)
        requires
            old(self).well_formed(*old(registry)),
            old(self).next < start_count(old(self).num_threads, old(registry).threads@.len()),
            old(registry).can_wait_spec(),
        ensures
            Boot::launched(*old(self), *old(registry), launched, r, *final(self), *final(registry)),
            final(self).well_formed(*final(registry)),
    {
        let thread_index: usize = self.next;
        assert(seq![State::Inactive][0] == State::Inactive);
        match registry.threads[thread_index].finish_boot(launched) {
            Ok(wait) => {
                self.next = thread_index + 1;
                self.phase = BootPhase::Starting;
                match wait {
                    Wait::Reached => BootStep::Again,
                    Wait::Pending(ticket) => BootStep::Await { thread_index, ticket },
                }
            },
            Err(error) => {
                self.phase = BootPhase::Failed(error);
                BootStep::RollBack(error)
            },
        }
    }
}

/// Whether a thread that is not inactive became somebody to wait for until it is, and this is
/// the ticket.
pub open spec fn awaited(before: PhpThreadView, ticket: u64, after: PhpThreadView) -> bool {
    &&& before.lifecycle.current != State::Inactive
    &&& ticket == before.lifecycle.issued
    &&& after == (PhpThreadView {
        lifecycle: before.lifecycle.waiting_for(seq![State::Inactive]),
        ..before
    })
}

/// How many of a registry's threads are started.
fn count_to_start(num_threads: usize, registry: &Registry) -> (r: usize)
    ensures
        r == start_count(num_threads, registry.threads@.len()),
{
    let count: usize = registry.threads.len();
    if num_threads < count {
        num_threads
    } else {
        count
    }
}

/// Whether the threads from a number on were never used.
fn unused_from(registry: &Registry, start: usize) -> (r: bool)
    ensures
        r == fresh_from(*registry, start as int),
{
    let mut i: usize = start;
    while i < registry.threads.len()
        invariant
            start <= i,
            forall|k: int|
                start <= k < i && k < registry.threads@.len() ==> thread::is_fresh(
                    (#[trigger] registry.threads@[k])@,
                    k,
                ),
        decreases registry.threads@.len() - i,
    {
        if !registry.threads[i].is_unused(i) {
            return false;
        }
        i = i + 1;
    }
    true
}

/// The first of so many threads that is not inactive.
fn first_not_inactive(registry: &Registry, count: usize) -> (r: Option<usize>)
    requires
        count <= registry.threads@.len(),
    ensures
        match r {
            Some(i) => i < count && inactive_up_to(*registry, i as int)
                && registry.threads@[i as int]@.lifecycle.current != State::Inactive,
            None => inactive_up_to(*registry, count as int),
        },
{
    let mut i: usize = 0;
    while i < count
        invariant
            i <= count <= registry.threads@.len(),
            inactive_up_to(*registry, i as int),
        decreases count - i,
    {
        if registry.threads[i].state() != State::Inactive {
            return Some(i);
        }
        i = i + 1;
    }
    None
}

/// Starts to wait until a thread is inactive.
fn await_inactive(registry: &mut Registry, thread_index: usize) -> (ticket: u64)
    requires
        thread_index < old(registry).threads@.len(),
        old(registry).can_wait_spec(),
        old(registry).threads@[thread_index as int]@.lifecycle.current != State::Inactive,
    ensures
        registry::only_thread_changed(*old(registry), *final(registry), thread_index as int),
        awaited(
            old(registry).threads@[thread_index as int]@,
            ticket,
            final(registry).threads@[thread_index as int]@,
        ),
{
    let states = [State::Inactive];
    assert(states@ =~= seq![State::Inactive]);
    match registry.threads[thread_index].wait_for(states.as_slice()) {
        Wait::Pending(ticket) => ticket,
        Wait::Reached => 0,
    }
}

/// What a start comes to: once the main thread has settled how many threads there may be and
/// there is room for so many, a start that is over leaves exactly as many threads inactive as
/// were asked for and the others reserved, and there may be no fewer threads than that.
pub proof fn lemma_started(
    boot: Boot,
    registry_before: Registry,
    event: BootEvent,
    after: Boot,
    registry_after: Registry,
    per_thread_limit: int,
    total_memory: int,
)
    requires
        boot.well_formed(registry_before),
        Boot::stepped(
            boot,
            registry_before,
            event,
            BootStep::Finished,
            after,
            registry_after,
        ),
        registry_before.main matches Some(main) && boot.num_threads == main@.num_threads
            && main@.max_threads == registry::resolved_max(
            main@.num_threads,
            main@.requested_max_threads,
            per_thread_limit,
            total_memory,
        ) && registry_before.threads@.len() == (if main@.max_threads <= 1 {
            1int
        } else {
            main@.max_threads as int
        }),
    ensures
        registry_after.main == registry_before.main,
        boot.num_threads <= registry_after.main->0@.max_threads,
        registry_after.main->0@.max_threads <= registry_after.threads@.len(),
        forall|i: int|
            0 <= i < registry_after.threads@.len() ==> (
            #[trigger] registry_after.threads@[i])@.lifecycle.current == (if i < boot.num_threads {
                State::Inactive
            } else {
                State::Reserved
            }),
{
    let main = registry_before.main->0@;
    registry::lemma_resolved_max(
        main.num_threads,
        main.requested_max_threads,
        per_thread_limit,
        total_memory,
    );
}

/// A start that has failed starts no further thread, whatever it is told: every later step asks
/// for the threads to be drained, for the same reason.
pub proof fn lemma_failed_start_goes_no_further(
    before: Boot,
    registry_before: Registry,
    event: BootEvent,
    r: BootStep,
    after: Boot,
    registry_after: Registry,
    later_registry: Registry,
    later_event: BootEvent,
    later: BootStep,
    at_last: Boot,
    last_registry: Registry,
)
    requires
        Boot::stepped(before, registry_before, event, r, after, registry_after),
        r is RollBack,
        Boot::stepped(after, later_registry, later_event, later, at_last, last_registry),
    ensures
        later == r,
        at_last == after,
        last_registry == later_registry,
{
}

/// Whoever waits for a thread's start is woken when the thread is inactive, and not before.
pub proof fn lemma_start_is_waited_for(
    before: PhpThreadView,
    ticket: u64,
    after: PhpThreadView,
    published: State,
)
    requires
        awaited(before, ticket, after),
        before.lifecycle.well_formed(),
        before.lifecycle.issued < u64::MAX,
    ensures
        state::pending(after.lifecycle.waiters, ticket),
        state::pending(after.lifecycle.published(published).waiters, ticket) == (published
            != State::Inactive),
{
    let inactive = seq![State::Inactive];
    assert(inactive[0] == State::Inactive);
    state::lemma_ticket_pending_until_published(before.lifecycle, inactive, published);
}

/// A thread that could not be launched is reserved again and says why the start failed; one that
/// was is counted, and the next is not begun before it.
pub proof fn lemma_launches_are_counted(
    before: Boot,
    registry_before: Registry,
    launched: bool,
    r: BootStep,
    after: Boot,
    registry_after: Registry,
)
    requires
        before.phase == BootPhase::Launching,
        Boot::stepped(
            before,
            registry_before,
            BootEvent::Launched(launched),
            r,
            after,
            registry_after,
        ),
    ensures
        after.num_threads == before.num_threads,
        launched ==> after.next == before.next + 1 && after.phase == BootPhase::Starting,
        launched ==> r is Again || (r matches BootStep::Await { thread_index, .. } && thread_index
            == before.next),
        !launched ==> after.next == before.next && (r matches BootStep::RollBack(error) && error
            == (ThreadError::PhpThreadCreation {
            thread_index: registry_before.threads@[before.next as int]@.index,
        })),
        !launched ==> registry_after.threads@[before.next as int]@.lifecycle.current
            == State::Reserved,
{
}

} // verus!
