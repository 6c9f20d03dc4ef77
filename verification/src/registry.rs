//! The registry of PHP threads: how many there are, how they are started and how they end.
use vstd::prelude::*;

use crate::ini;
use crate::ini::PhpIni;
use crate::state;
use crate::state::{Lifecycle, State, ThreadState, Wait};
use crate::thread;
use crate::thread::{HandlerChange, MaxThreads, PhpThread, PhpThreadView, ThreadError};

verus! {

/// How many threads memory allows. Without a memory limit, or where it is not known how much
/// memory there is, twice as many as are started.
pub open spec fn memory_bound(num_threads: int, per_thread_limit: int, total_memory: int) -> int {
    if per_thread_limit <= 0 || total_memory == 0 {
        if num_threads * 2 > usize::MAX {
            usize::MAX as int
        } else {
            num_threads * 2
        }
    } else {
        total_memory / per_thread_limit
    }
}

/// How many threads memory allows.
pub fn automatic_max_threads(num_threads: usize, per_thread_limit: i64, total_memory: u64) -> (r:
    usize)
    ensures
        r == memory_bound(
            num_threads as int,
            per_thread_limit as int,
            total_memory as int,
        ) as usize,
{
    if per_thread_limit <= 0 || total_memory == 0 {
        if num_threads > usize::MAX / 2 {
            usize::MAX
        } else {
            num_threads * 2
        }
    } else {
        (total_memory / (per_thread_limit as u64)) as usize
    }
}

/// How many threads there may be: what was asked for, but never fewer than are started.
pub open spec fn resolved_max(
    num_threads: usize,
    requested: MaxThreads,
    per_thread_limit: int,
    total_memory: int,
) -> usize {
    let wanted = match requested {
        MaxThreads::Fixed(count) => count,
        MaxThreads::Auto => memory_bound(
            num_threads as int,
            per_thread_limit,
            total_memory,
        ) as usize,
    };
    if wanted < num_threads {
        num_threads
    } else {
        wanted
    }
}

/// How many threads there may be.
pub fn resolve_max_threads(
    num_threads: usize,
    requested: MaxThreads,
    per_thread_limit: i64,
    total_memory: u64,
) -> (r: usize)
    ensures
        r == resolved_max(num_threads, requested, per_thread_limit as int, total_memory as int),
{
    let wanted: usize = match requested {
        MaxThreads::Fixed(count) => count,
        MaxThreads::Auto => automatic_max_threads(num_threads, per_thread_limit, total_memory),
    };
    if wanted < num_threads {
        num_threads
    } else {
        wanted
    }
}

/// There may never be fewer threads than are started, and a number that was asked for is taken
/// as it is where it is not too small.
pub proof fn lemma_resolved_max(
    num_threads: usize,
    requested: MaxThreads,
    per_thread_limit: int,
    total_memory: int,
)
    ensures
        resolved_max(num_threads, requested, per_thread_limit, total_memory) >= num_threads,
        requested matches MaxThreads::Fixed(count) ==> count >= num_threads ==> resolved_max(
            num_threads,
            requested,
            per_thread_limit,
            total_memory,
        ) == count,
{
}

/// The bytes of memory that the system has, by what it says of itself: a number of units and
/// the size of one. Nothing where it does not say.
pub fn total_system_memory(reported: Option<(u64, u32)>) -> (r: u64)
    ensures
        r == (match reported {
            Some((units, unit)) => units.wrapping_mul(unit as u64),
            None => 0,
        }),
{
    match reported {
        Some((units, unit)) => units.wrapping_mul(unit as u64),
        None => 0,
    }
}

/// The thread that starts the interpreter up and tears it down.
pub struct PhpMainThread {
    lifecycle: ThreadState,
    num_threads: usize,
    requested_max_threads: MaxThreads,
    max_threads: usize,
    php_ini: PhpIni,
}

/// What there is to know of a [`PhpMainThread`].
pub struct PhpMainThreadView {
    pub lifecycle: Lifecycle,
    pub num_threads: usize,
    pub requested_max_threads: MaxThreads,
    pub max_threads: usize,
    pub php_ini: Seq<(Seq<char>, Seq<char>)>,
}

impl View for PhpMainThread {
    type V = PhpMainThreadView;

    closed spec fn view(&self) -> PhpMainThreadView {
        PhpMainThreadView {
            lifecycle: self.lifecycle@,
            num_threads: self.num_threads,
            requested_max_threads: self.requested_max_threads,
            max_threads: self.max_threads,
            php_ini: self.php_ini@,
        }
    }
}

impl PhpMainThread {
    /// A reserved main thread. Until it is ready nobody may rely on how many threads there may
    /// be, where that is left to memory.
    pub fn new(num_threads: usize, max_threads: MaxThreads, php_ini: PhpIni) -> (r: Self)
        ensures
            r@ == (PhpMainThreadView {
                lifecycle: state::fresh_lifecycle(),
                num_threads,
                requested_max_threads: max_threads,
                max_threads: match max_threads {
                    MaxThreads::Fixed(count) => count,
                    MaxThreads::Auto => num_threads,
                },
                php_ini: php_ini@,
            }),
    {
        let initial: usize = match max_threads {
            MaxThreads::Fixed(count) => count,
            MaxThreads::Auto => num_threads,
        };
        PhpMainThread {
            lifecycle: ThreadState::new(),
            num_threads,
            requested_max_threads: max_threads,
            max_threads: initial,
            php_ini,
        }
    }

    /// The state. Nobody outside publishes one: that lets the interpreter be torn down.
    pub fn state(&self) -> (r: State)
        ensures
            r == self@.lifecycle.current,
    {
        self.lifecycle.get()
    }

    /// How many threads are started.
    pub fn num_threads(&self) -> (r: usize)
        ensures
            r == self@.num_threads,
    {
        self.num_threads
    }

    /// How many threads there may be.
    pub fn max_threads(&self) -> (r: usize)
        ensures
            r == self@.max_threads,
    {
        self.max_threads
    }

    /// Whether how many threads there may be is left to memory.
    pub fn is_automatic(&self) -> (r: bool)
        ensures
            r == (self@.requested_max_threads is Auto),
    {
        match self.requested_max_threads {
            MaxThreads::Auto => true,
            MaxThreads::Fixed(_) => false,
        }
    }

    /// The settings that override php.ini.
    pub fn php_ini(&self) -> (r: &PhpIni)
        ensures
            r@ == self@.php_ini,
    {
        &self.php_ini
    }

    /// Sets a setting that overrides php.ini.
    pub(crate) fn override_setting(&mut self, key: &str, value: &str)
        ensures
            final(self)@ == (PhpMainThreadView {
                php_ini: ini::with_setting(old(self)@.php_ini, key@, value@),
                ..old(self)@
            }),
    {
        self.php_ini.insert(key, value);
    }

    /// Settles how many threads there may be, by the interpreter's memory limit and the system's
    /// memory.
    pub fn finalize_max_threads(&mut self, per_thread_limit: i64, total_memory: u64)
        ensures
            final(self)@ == (PhpMainThreadView {
                max_threads: resolved_max(
                    old(self)@.num_threads,
                    old(self)@.requested_max_threads,
                    per_thread_limit as int,
                    total_memory as int,
                ),
                ..old(self)@
            }),
    {
        self.max_threads =
        resolve_max_threads(
            self.num_threads,
            self.requested_max_threads,
            per_thread_limit,
            total_memory,
        );
    }

    /// Starts to wait for any of `states`.
    pub fn wait_for(&mut self, states: &[State]) -> (r: Wait)
        requires
            old(self)@.lifecycle.issued < u64::MAX,
        ensures
            r == old(self)@.lifecycle.wait(states@),
            final(self)@ == (PhpMainThreadView {
                lifecycle: old(self)@.lifecycle.waiting_for(states@),
                ..old(self)@
            }),
    {
        self.lifecycle.wait_for(states)
    }

    /// Whether a ticket is pending.
    pub fn is_pending(&self, ticket: u64) -> (r: bool)
        ensures
            r == state::pending(self@.lifecycle.waiters, ticket),
    {
        self.lifecycle.is_pending(ticket)
    }

    /// Whether the main thread cannot be waited for any more: every ticket has been given out.
    pub fn tickets_spent(&self) -> (r: bool)
        ensures
            r == (self@.lifecycle.issued >= u64::MAX),
    {
        self.lifecycle.issued == u64::MAX
    }

    /// The interpreter is up: settles how many threads there may be, then publishes that the
    /// main thread is ready. Wait until it is to end or to reboot.
    pub fn ready(&mut self, per_thread_limit: i64, total_memory: u64) -> (r: Wait)
        requires
            old(self)@.lifecycle.issued < u64::MAX,
        ensures
            ({
                let l = old(self)@.lifecycle.published(State::Ready);
                let states = seq![State::Done, State::Rebooting];
                &&& r == Wait::Pending(old(self)@.lifecycle.issued as u64)
                &&& final(self)@ == (PhpMainThreadView {
                    lifecycle: l.waiting_for(states),
                    max_threads: resolved_max(
                        old(self)@.num_threads,
                        old(self)@.requested_max_threads,
                        per_thread_limit as int,
                        total_memory as int,
                    ),
                    ..old(self)@
                })
            }),
    {
        self.finalize_max_threads(per_thread_limit, total_memory);
        self.lifecycle.set(State::Ready);
        let states = [State::Done, State::Rebooting];
        assert(states@ =~= seq![State::Done, State::Rebooting]);
        self.lifecycle.wait_for(states.as_slice())
    }

    /// The interpreter is down: a reboot goes on, anything else leaves the main thread reserved.
    pub fn torn_down(&mut self)
        ensures
            final(self)@ == (PhpMainThreadView {
                lifecycle: old(self)@.lifecycle.published(
                    if old(self)@.lifecycle.current == State::Rebooting {
                        State::YieldingForReboot
                    } else {
                        State::Reserved
                    },
                ),
                ..old(self)@
            }),
    {
        if !self.lifecycle.compare_and_swap(State::Rebooting, State::YieldingForReboot) {
            self.lifecycle.set(State::Reserved);
        }
    }

    /// Publishes that the threads are being drained.
    pub(crate) fn begin_drain(&mut self)
        ensures
            final(self)@ == (PhpMainThreadView {
                lifecycle: old(self)@.lifecycle.published(State::ShuttingDown),
                ..old(self)@
            }),
    {
        self.lifecycle.set(State::ShuttingDown);
    }

    /// Publishes that the main thread may end.
    pub(crate) fn release(&mut self)
        ensures
            final(self)@ == (PhpMainThreadView {
                lifecycle: old(self)@.lifecycle.published(State::Done),
                ..old(self)@
            }),
    {
        self.lifecycle.set(State::Done);
    }
}

/// The main thread and the others, by their numbers.
pub struct Registry {
    pub main: Option<PhpMainThread>,
    pub threads: Vec<PhpThread>,
    /// Whether the interpreter counts what its threads do.
    pub metrics_initialized: bool,
}

/// What there is to know of threads.
pub open spec fn thread_views(threads: Seq<PhpThread>) -> Seq<PhpThreadView> {
    threads.map_values(|t: PhpThread| t@)
}

/// Whether nothing of a registry has changed but one of its threads.
pub open spec fn only_thread_changed(before: Registry, after: Registry, i: int) -> bool {
    &&& after.main == before.main
    &&& after.metrics_initialized == before.metrics_initialized
    &&& after.threads@.len() == before.threads@.len()
    &&& forall|k: int|
        0 <= k < before.threads@.len() && k != i ==> #[trigger] after.threads@[k]
            == before.threads@[k]
}

/// Whether so many threads can be started.
pub open spec fn valid_counts(num_threads: usize, max_threads: MaxThreads) -> bool {
    &&& num_threads <= i32::MAX
    &&& max_threads matches MaxThreads::Fixed(count) ==> 0 < count <= i32::MAX
}

/// What became of the main thread's start.
#[derive(Debug, Clone, Copy, PartialEq, Eq, Structural)]
pub enum MainStart {
    /// Wait until it is ready; then make room for the threads.
    Started(Wait),
    /// It runs, but it could not be let loose: wait until it is ready, stop it, and fail.
    NotDetached(Wait),
    /// It does not run: the registry is empty again.
    Failed(ThreadError),
}

/// A thread that is free to be given a handler.
#[derive(Debug, Clone, Copy, PartialEq, Eq, Structural)]
pub enum InactivePhpThreadClaim {
    /// It is inactive.
    Inactive(usize),
    /// It was reserved and its boot is asked for.
    Boot(usize),
    /// All are taken.
    NoneLeft,
}

impl InactivePhpThreadClaim {
    /// Asks the claimed thread, once it is inactive, to let a handler take over. Nothing is asked
    /// where there is no such thread.
    pub fn assign_handler(self, registry: &mut Registry) -> (r: Option<HandlerChange>)
        requires
            old(registry).can_wait_spec(),
        ensures
            final(registry).main == old(registry).main,
            final(registry).metrics_initialized == old(registry).metrics_initialized,
            final(registry).threads@.len() == old(registry).threads@.len(),
            match self.claimed() {
                Some(i) if i < old(registry).threads@.len() => {
                    &&& r matches Some(change) && thread::handler_change_begun(
                        old(registry).threads@[i as int]@,
                        change,
                        final(registry).threads@[i as int]@,
                    )
                    &&& forall|k: int|
                        0 <= k < old(registry).threads@.len() && k != i ==> #[trigger] final(registry).threads@[k]
                            == old(registry).threads@[k]
                },
                _ => r is None && final(registry).threads == old(registry).threads,
            },
    {
        let i: usize = match self {
            InactivePhpThreadClaim::Inactive(i) => i,
            InactivePhpThreadClaim::Boot(i) => i,
            InactivePhpThreadClaim::NoneLeft => return None,
        };
        if i >= registry.threads.len() {
            return None;
        }
        Some(registry.threads[i].begin_set_handler())
    }

    /// The claimed thread.
    pub open spec fn claimed(self) -> Option<usize> {
        match self {
            InactivePhpThreadClaim::Inactive(i) => Some(i),
            InactivePhpThreadClaim::Boot(i) => Some(i),
            InactivePhpThreadClaim::NoneLeft => None,
        }
    }
}

/// The first thread in a state.
pub open spec fn first_in_state(threads: Seq<PhpThreadView>, wanted: State) -> Option<int>
    decreases threads.len(),
{
    if threads.len() == 0 {
        None
    } else if first_in_state(threads.drop_last(), wanted) is Some {
        first_in_state(threads.drop_last(), wanted)
    } else if threads.last().lifecycle.current == wanted {
        Some(threads.len() - 1)
    } else {
        None
    }
}

impl Registry {
    /// No threads.
    pub fn new() -> (r: Self)
        ensures
            r.main is None,
            r.threads@.len() == 0,
            !r.metrics_initialized,
    {
        Registry { main: None, threads: Vec::new(), metrics_initialized: false }
    }

    /// Whether everyone here can still be waited for.
    pub open spec fn can_wait_spec(&self) -> bool {
        &&& self.main matches Some(main) ==> main@.lifecycle.issued < u64::MAX
        &&& forall|i: int|
            0 <= i < self.threads@.len() ==> (#[trigger] self.threads@[i])@.lifecycle.issued
                < u64::MAX
    }

    /// Checks the numbers and enters the main thread and thread zero: what starts up before any
    /// other thread already speaks as thread zero.
    pub fn init_php_threads(
        &mut self,
        num_threads: usize,
        max_threads: MaxThreads,
        php_ini: PhpIni,
    ) -> (r: Result<(), ThreadError>)
        ensures
            r is Ok == (valid_counts(num_threads, max_threads) && old(self).main is None),
            r matches Err(e) ==> *final(self) == *old(self) && e == (if !valid_counts(
                num_threads,
                max_threads,
            ) {
                ThreadError::InvalidThreadCount { num_threads, max_threads }
            } else {
                ThreadError::AlreadyInitialized
            }),
            r is Ok ==> {
                &&& final(self).main matches Some(main) && main@ == (PhpMainThreadView {
                    lifecycle: state::fresh_lifecycle(),
                    num_threads,
                    requested_max_threads: max_threads,
                    max_threads: match max_threads {
                        MaxThreads::Fixed(count) => count,
                        MaxThreads::Auto => num_threads,
                    },
                    php_ini: php_ini@,
                })
                &&& final(self).threads@.len() == 1
                &&& thread::is_fresh(final(self).threads@[0]@, 0)
                &&& !final(self).metrics_initialized
            },
    {
        let limit: usize = i32::MAX as usize;
        let out_of_range = match max_threads {
            MaxThreads::Fixed(count) => count == 0 || count > limit,
            MaxThreads::Auto => false,
        };
        if out_of_range || num_threads > limit {
            return Err(ThreadError::InvalidThreadCount { num_threads, max_threads });
        }
        if self.main.is_some() {
            return Err(ThreadError::AlreadyInitialized);
        }
        self.main = Some(PhpMainThread::new(num_threads, max_threads, php_ini));
        let mut threads: Vec<PhpThread> = Vec::new();
        threads.push(PhpThread::new(0));
        self.threads = threads;
        self.metrics_initialized = false;
        Ok(())
    }

    /// Goes on once the interpreter's main thread was made, by the code that came back: zero
    /// where it runs on its own, -1 where it was not made, any other where it runs but could not
    /// be let loose.
    pub fn main_started(&mut self, code: i32) -> (r: MainStart)
        requires
            old(self).main is Some,
            old(self).can_wait_spec(),
        ensures
            ({
                let l = old(self).main->0@.lifecycle;
                let waits = final(self).main matches Some(main) && main@ == (PhpMainThreadView {
                    lifecycle: l.waiting_for(seq![State::Ready]),
                    ..old(self).main->0@
                }) && final(self).threads == old(self).threads && final(self).metrics_initialized
                    == old(self).metrics_initialized;
                if code == 0 {
                    r == MainStart::Started(l.wait(seq![State::Ready])) && waits
                } else if code == -1 {
                    &&& r == MainStart::Failed(ThreadError::MainThreadCreation { code })
                    &&& final(self).main is None
                    &&& final(self).threads@.len() == 0
                    &&& !final(self).metrics_initialized
                } else {
                    r == MainStart::NotDetached(l.wait(seq![State::Ready])) && waits
                }
            }),
    {
        if code == -1 {
            self.clear();
            return MainStart::Failed(ThreadError::MainThreadCreation { code });
        }
        let states = [State::Ready];
        assert(states@ =~= seq![State::Ready]);
        match &mut self.main {
            Some(main) => {
                let wait = main.wait_for(states.as_slice());
                if code == 0 {
                    MainStart::Started(wait)
                } else {
                    MainStart::NotDetached(wait)
                }
            },
            None => MainStart::Failed(ThreadError::MainThreadCreation { code }),
        }
    }

    /// Lets the main thread end. Wait until it is reserved.
    pub fn stop_main(&mut self) -> (r: Option<Wait>)
        requires
            old(self).can_wait_spec(),
        ensures
            match old(self).main {
                Some(main) => {
                    let l = main@.lifecycle.published(State::Done);
                    &&& r == Some(Wait::Pending(main@.lifecycle.issued as u64))
                    &&& final(self).main matches Some(after) && after@ == (PhpMainThreadView {
                        lifecycle: l.waiting_for(seq![State::Reserved]),
                        ..main@
                    })
                },
                None => r is None && final(self).main is None,
            },
            final(self).threads == old(self).threads,
            final(self).metrics_initialized == old(self).metrics_initialized,
    {
        let states = [State::Reserved];
        assert(states@ =~= seq![State::Reserved]);
        match &mut self.main {
            Some(main) => {
                main.release();
                Some(main.wait_for(states.as_slice()))
            },
            None => None,
        }
    }

    /// Makes room for as many threads as there may be, once the main thread is ready and before
    /// any other is started, and gives their number. Thread zero stays.
    pub fn allocate_threads(&mut self) -> (r: usize)
        requires
            old(self).main is Some,
            old(self).threads@.len() == 1,
        ensures
            r == old(self).main->0@.max_threads,
            final(self).main == old(self).main,
            final(self).metrics_initialized,
            final(self).threads@.len() == (if r <= 1 {
                1int
            } else {
                r as int
            }),
            final(self).threads@[0] == old(self).threads@[0],
            forall|i: int|
                1 <= i < final(self).threads@.len() ==> thread::is_fresh(
                    (#[trigger] final(self).threads@[i])@,
                    i,
                ),
    {
        let count: usize = match &self.main {
            Some(main) => main.max_threads(),
            None => 0,
        };
        let mut i: usize = 1;
        while i < count
            invariant
                self.main == old(self).main,
                1 <= i,
                i <= count || i == 1,
                self.threads@.len() == i,
                self.threads@[0] == old(self).threads@[0],
                forall|k: int| 1 <= k < i ==> thread::is_fresh((#[trigger] self.threads@[k])@, k),
            decreases count - i,
        {
            self.threads.push(PhpThread::new(i));
            i = i + 1;
        }
        self.metrics_initialized = true;
        count
    }

    /// Whether the threads are to be drained: only those of a main thread that is ready.
    pub fn drain_php_threads(&self) -> (r: bool)
        ensures
            r == (self.main matches Some(main) && main@.lifecycle.current == State::Ready),
    {
        match &self.main {
            Some(main) => main.state() == State::Ready,
            None => false,
        }
    }

    /// Forgets every thread.
    pub fn clear(&mut self)
        ensures
            final(self).main is None,
            final(self).threads@.len() == 0,
            !final(self).metrics_initialized,
    {
        self.main = None;
        self.threads = Vec::new();
        self.metrics_initialized = false;
    }

    /// Finds a thread that is free: the first inactive one, or else the first reserved one,
    /// whose boot is then asked for.
    pub fn get_inactive_php_thread(&mut self) -> (r: InactivePhpThreadClaim)
        ensures
            final(self).main == old(self).main,
            final(self).metrics_initialized == old(self).metrics_initialized,
            ({
                let before = thread_views(old(self).threads@);
                let after = thread_views(final(self).threads@);
                match (
                    first_in_state(before, State::Inactive),
                    first_in_state(before, State::Reserved),
                ) {
                    (Some(i), _) => r == InactivePhpThreadClaim::Inactive(i as usize) && after == before,
                    (None, Some(i)) => r == InactivePhpThreadClaim::Boot(i as usize) && after
                        == before.update(
                        i,
                        PhpThreadView {
                            lifecycle: before[i].lifecycle.published(State::BootRequested),
                            ..before[i]
                        },
                    ),
                    (None, None) => r == InactivePhpThreadClaim::NoneLeft && after == before,
                }
            }),
    {
        let ghost before = thread_views(self.threads@);
        match self.find_in_state(State::Inactive) {
            Some(i) => return InactivePhpThreadClaim::Inactive(i),
            None => {},
        }
        match self.find_in_state(State::Reserved) {
            Some(i) => {
                self.threads[i].request_boot();
                assert(thread_views(self.threads@) =~= before.update(
                    i as int,
                    PhpThreadView {
                        lifecycle: before[i as int].lifecycle.published(State::BootRequested),
                        ..before[i as int]
                    },
                ));
                InactivePhpThreadClaim::Boot(i)
            },
            None => InactivePhpThreadClaim::NoneLeft,
        }
    }

    /// The first thread in a state.
    fn find_in_state(&self, wanted: State) -> (r: Option<usize>)
        ensures
            match r {
                Some(i) => i < self.threads@.len() && first_in_state(
                    thread_views(self.threads@),
                    wanted,
                ) == Some(i as int) && self.threads@[i as int]@.lifecycle.current == wanted,
                None => first_in_state(thread_views(self.threads@), wanted) is None,
            },
    {
        let ghost all = thread_views(self.threads@);
        let mut i: usize = 0;
        while i < self.threads.len()
            invariant
                i <= self.threads@.len(),
                all == thread_views(self.threads@),
                first_in_state(all.take(i as int), wanted) is None,
            decreases self.threads@.len() - i,
        {
            proof {
                assert(all.take(i + 1).drop_last() =~= all.take(i as int));
                assert(all.take(i + 1).last() == self.threads@[i as int]@);
            }
            if self.threads[i].state() == wanted {
                proof {
                    lemma_first_in_prefix(all, wanted, i + 1);
                }
                return Some(i);
            }
            i = i + 1;
        }
        assert(all.take(i as int) =~= all);
        None
    }

    /// A thread by its number.
    pub fn thread_by_index(&self, thread_index: usize) -> (r: Option<&PhpThread>)
        ensures
            match r {
                Some(thread) => thread_index < self.threads@.len() && *thread
                    == self.threads@[thread_index as int],
                None => thread_index >= self.threads@.len(),
            },
    {
        if thread_index < self.threads.len() {
            Some(&self.threads[thread_index])
        } else {
            None
        }
    }

    /// The threads.
    pub fn php_threads(&self) -> (r: &[PhpThread])
        ensures
            r@ == self.threads@,
    {
        self.threads.as_slice()
    }

    /// The main thread.
    pub fn main_thread(&self) -> (r: Option<&PhpMainThread>)
        ensures
            match r {
                Some(main) => self.main == Some(*main),
                None => self.main is None,
            },
    {
        self.main.as_ref()
    }

    /// Whether everyone here can still be waited for.
    pub fn can_wait(&self) -> (r: bool)
        ensures
            r == self.can_wait_spec(),
    {
        match &self.main {
            Some(main) => if main.tickets_spent() {
                return false;
            },
            None => {},
        }
        let mut i: usize = 0;
        while i < self.threads.len()
            invariant
                i <= self.threads@.len(),
                self.main matches Some(main) ==> main@.lifecycle.issued < u64::MAX,
                forall|k: int|
                    0 <= k < i ==> (#[trigger] self.threads@[k])@.lifecycle.issued < u64::MAX,
            decreases self.threads@.len() - i,
        {
            if self.threads[i].tickets_spent() {
                return false;
            }
            i = i + 1;
        }
        true
    }
}

proof fn lemma_first_in_prefix(threads: Seq<PhpThreadView>, wanted: State, n: int)
    requires
        0 <= n <= threads.len(),
        first_in_state(threads.take(n), wanted) is Some,
    ensures
        first_in_state(threads, wanted) == first_in_state(threads.take(n), wanted),
    decreases threads.len(),
{
    if n == threads.len() {
        assert(threads.take(n) =~= threads);
    } else {
        assert(threads.drop_last().take(n) =~= threads.take(n));
        lemma_first_in_prefix(threads.drop_last(), wanted, n);
    }
}

/// Memory bounds the threads by what each may use: as many as fit, and not one more. Where there
/// is no limit for one, or the memory is not known, there may be twice as many as are started.
pub proof fn lemma_memory_bounds_threads(
    num_threads: int,
    per_thread_limit: int,
    total_memory: int,
)
    requires
        0 <= num_threads,
        0 <= total_memory,
    ensures
        per_thread_limit > 0 && total_memory > 0 ==> {
            let bound = memory_bound(num_threads, per_thread_limit, total_memory);
            bound * per_thread_limit <= total_memory < (bound + 1) * per_thread_limit
        },
        (per_thread_limit <= 0 || total_memory == 0) && 2 * num_threads <= usize::MAX
            ==> memory_bound(num_threads, per_thread_limit, total_memory) == 2 * num_threads,
{
    if per_thread_limit > 0 {
        assert((total_memory / per_thread_limit) * per_thread_limit <= total_memory < (total_memory
            / per_thread_limit + 1) * per_thread_limit) by (nonlinear_arith)
            requires
                per_thread_limit > 0,
        ;
    }
}

/// Threads are numbered by a C `int`, so there may be from one to as many as it holds.
pub proof fn lemma_thread_counts(num_threads: usize, max_threads: MaxThreads)
    ensures
        valid_counts(num_threads, max_threads) == (num_threads <= 0x7fff_ffff && match max_threads {
            MaxThreads::Fixed(count) => 1 <= count <= 0x7fff_ffff,
            MaxThreads::Auto => true,
        }),
{
}

/// The first thread in a state is one in that state with none before it, and there is none only
/// where no thread is in that state.
pub proof fn lemma_first_in_state(threads: Seq<PhpThreadView>, wanted: State)
    ensures
        match first_in_state(threads, wanted) {
            Some(i) => 0 <= i < threads.len() && threads[i].lifecycle.current == wanted && forall|
                k: int,
            |
                0 <= k < i ==> (#[trigger] threads[k]).lifecycle.current != wanted,
            None => forall|k: int|
                0 <= k < threads.len() ==> (#[trigger] threads[k]).lifecycle.current != wanted,
        },
    decreases threads.len(),
{
    if threads.len() > 0 {
        let front = threads.drop_last();
        lemma_first_in_state(front, wanted);
        match first_in_state(front, wanted) {
            Some(i) => {
                assert(threads[i] == front[i]);
                assert forall|k: int| 0 <= k < i implies (#[trigger] threads[k]).lifecycle.current
                    != wanted by {
                    assert(front[k].lifecycle.current != wanted);
                }
            },
            None => {
                assert forall|k: int| 0 <= k < threads.len() - 1 implies (
                #[trigger] threads[k]).lifecycle.current != wanted by {
                    assert(front[k].lifecycle.current != wanted);
                }
            },
        }
    }
}

/// Left to memory, there may be as many threads as memory allows, and never fewer than are
/// started.
pub proof fn lemma_automatic_max(num_threads: usize, per_thread_limit: int, total_memory: int)
    requires
        0 <= memory_bound(num_threads as int, per_thread_limit, total_memory) <= usize::MAX,
    ensures
        ({
            let bound = memory_bound(num_threads as int, per_thread_limit, total_memory);
            resolved_max(num_threads, MaxThreads::Auto, per_thread_limit, total_memory) == if bound
                < num_threads {
                num_threads as int
            } else {
                bound
            }
        }),
{
}

/// A claim names its thread, whether the thread is inactive already or still to be booted.
pub proof fn lemma_claims_name_their_thread(i: usize)
    ensures
        InactivePhpThreadClaim::Inactive(i).claimed() == Some(i),
        InactivePhpThreadClaim::Boot(i).claimed() == Some(i),
        InactivePhpThreadClaim::NoneLeft.claimed() is None,
{
}

/// Where one thread changes, all else of the registry stays.
pub proof fn lemma_only_one_thread_changes(before: Registry, after: Registry, i: int, k: int)
    requires
        only_thread_changed(before, after, i),
        0 <= k < before.threads@.len(),
        k != i,
    ensures
        after.main == before.main,
        after.metrics_initialized == before.metrics_initialized,
        after.threads@.len() == before.threads@.len(),
        after.threads@[k] == before.threads@[k],
{
}

/// A start begins by the numbers that it is given: they are checked before anything else, a
/// second start is refused, and otherwise there are a main thread that knows what was asked for
/// and thread zero.
pub proof fn lemma_start_begins(
    registry: &mut Registry,
    num_threads: usize,
    max_threads: MaxThreads,
    php_ini: PhpIni,
    r: Result<(), ThreadError>,
)
    requires
        call_ensures(
            Registry::init_php_threads,
            (registry, num_threads, max_threads, php_ini),
            r,
        ),
    ensures
        ({
            let possible = num_threads <= 0x7fff_ffff && match max_threads {
                MaxThreads::Fixed(count) => 1 <= count <= 0x7fff_ffff,
                MaxThreads::Auto => true,
            };
            &&& !possible ==> r == Err::<(), ThreadError>(
                ThreadError::InvalidThreadCount { num_threads, max_threads },
            )
            &&& possible && old(registry).main is Some ==> r == Err::<(), ThreadError>(
                ThreadError::AlreadyInitialized,
            )
            &&& possible && old(registry).main is None ==> r is Ok
            &&& r is Err ==> *final(registry) == *old(registry)
            &&& r is Ok ==> final(registry).main is Some
                && final(registry).main->0@.num_threads == num_threads
                && final(registry).main->0@.requested_max_threads == max_threads
                && final(registry).main->0@.php_ini == php_ini@
                && final(registry).main->0@.lifecycle.current == State::Reserved
                && final(registry).threads@.len() == 1
        }),
{
    lemma_thread_counts(num_threads, max_threads);
}

/// The main thread's start is believed by the code that came back: at zero it is waited for until
/// it is ready, where it was not made nothing is left behind, and where it runs but cannot be
/// let loose it is waited for all the same, so that it can be stopped.
pub proof fn lemma_main_start_is_believed(registry: &mut Registry, code: i32, r: MainStart)
    requires
        old(registry).main is Some,
        call_ensures(Registry::main_started, (registry, code), r),
    ensures
        code == 0 <==> r is Started,
        code == -1 <==> r is Failed,
        code != 0 && code != -1 <==> r is NotDetached,
        code == -1 ==> r == MainStart::Failed(ThreadError::MainThreadCreation { code })
            && final(registry).main is None && final(registry).threads@.len() == 0,
        code != -1 && old(registry).main->0@.lifecycle.current != State::Ready ==> (r
            == MainStart::Started(
            Wait::Pending(old(registry).main->0@.lifecycle.issued as u64),
        ) || r == MainStart::NotDetached(
            Wait::Pending(old(registry).main->0@.lifecycle.issued as u64),
        )),
        code != -1 ==> final(registry).main is Some && final(registry).threads
            == old(registry).threads,
{
    let ready = seq![State::Ready];
    assert(ready[0] == State::Ready);
}

/// Room is made for as many threads as there may be, one at least, each numbered by its place and
/// never used, and the first stays as it was.
pub proof fn lemma_room_is_made(registry: &mut Registry, r: usize, i: int)
    requires
        old(registry).main is Some,
        old(registry).threads@.len() == 1,
        call_ensures(Registry::allocate_threads, (registry,), r),
    ensures
        r == old(registry).main->0@.max_threads,
        r >= 1 ==> final(registry).threads@.len() == r,
        r == 0 ==> final(registry).threads@.len() == 1,
        final(registry).threads@[0] == old(registry).threads@[0],
        1 <= i < final(registry).threads@.len() ==> final(registry).threads@[i]@.index == i
            && final(registry).threads@[i]@.lifecycle.current == State::Reserved,
        final(registry).main == old(registry).main,
{
    if 1 <= i < final(registry).threads@.len() {
        assert(thread::is_fresh(final(registry).threads@[i]@, i));
    }
}

/// A free thread is found where there is one: the first that is inactive, or else the first that
/// is reserved, which is then asked for and not found again.
pub proof fn lemma_free_thread_is_found(
    registry: &mut Registry,
    r: InactivePhpThreadClaim,
    k: int,
)
    requires
        call_ensures(Registry::get_inactive_php_thread, (registry,), r),
        old(registry).threads@.len() <= usize::MAX,
        0 <= k < old(registry).threads@.len(),
    ensures
        ({
            let before = thread_views(old(registry).threads@);
            let after = thread_views(final(registry).threads@);
            &&& before[k].lifecycle.current == State::Inactive ==> (r
                matches InactivePhpThreadClaim::Inactive(i) && i <= k
                && before[i as int].lifecycle.current == State::Inactive && after == before)
            &&& r matches InactivePhpThreadClaim::Boot(i) ==> i < before.len()
                && before[i as int].lifecycle.current == State::Reserved
                && after[i as int].lifecycle.current == State::BootRequested
                && before[k].lifecycle.current != State::Inactive && (
            before[k].lifecycle.current == State::Reserved ==> i <= k)
            &&& r is NoneLeft ==> before[k].lifecycle.current != State::Inactive
                && before[k].lifecycle.current != State::Reserved && after == before
        }),
{
    let before = thread_views(old(registry).threads@);
    lemma_first_in_state(before, State::Inactive);
    lemma_first_in_state(before, State::Reserved);
}

/// The main thread becomes ready with the number of threads settled, which is never below the
/// number that is started, and then waits until it is to end or to reboot.
pub proof fn lemma_main_becomes_ready(
    main: &mut PhpMainThread,
    per_thread_limit: i64,
    total_memory: u64,
    r: Wait,
    published: State,
)
    requires
        old(main)@.lifecycle.well_formed(),
        old(main)@.lifecycle.issued < u64::MAX,
        call_ensures(PhpMainThread::ready, (main, per_thread_limit, total_memory), r),
    ensures
        final(main)@.lifecycle.current == State::Ready,
        final(main)@.max_threads >= final(main)@.num_threads,
        final(main)@.num_threads == old(main)@.num_threads,
        r matches Wait::Pending(ticket) && state::pending(final(main)@.lifecycle.waiters, ticket)
            && state::pending(final(main)@.lifecycle.published(published).waiters, ticket) == !(
        published == State::Done || published == State::Rebooting),
{
    lemma_resolved_max(
        old(main)@.num_threads,
        old(main)@.requested_max_threads,
        per_thread_limit as int,
        total_memory as int,
    );
    let states = seq![State::Done, State::Rebooting];
    assert(states[0] == State::Done);
    assert(states[1] == State::Rebooting);
    state::lemma_operations_keep_well_formed(old(main)@.lifecycle, State::Ready, states, 0);
    state::lemma_ticket_pending_until_published(
        old(main)@.lifecycle.published(State::Ready),
        states,
        published,
    );
}

} // verus!
