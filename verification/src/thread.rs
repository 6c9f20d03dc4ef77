//! The PHP threads: their lifecycle, what they run, and how that changes.
//!
//! The interpreter's own threads are made and owned elsewhere. What stands here is what is known
//! of each of them and every decision about them. Nothing here blocks: where somebody has to
//! wait, a ticket says for what, and the next step takes up from there.
use vstd::prelude::*;
use vstd::string::*;

use crate::context;
use crate::context::{ContextSlots, RequestContext};
use crate::drain::{ClosedDrainGeneration, DrainChannel, DrainReceiver};
use crate::state;
use crate::state::{Lifecycle, SafeChange, State, ThreadState, UnixTime, Wait};
use crate::text;
use crate::thread_inactive;
use crate::thread_inactive::InactiveThread;

verus! {

/// A script's path, not empty, as a C string. What stands behind a NUL inside it is kept, though
/// C does not see it.
#[derive(Debug)]
pub struct ScriptPath {
    bytes: Vec<u8>,
}

impl View for ScriptPath {
    type V = Seq<u8>;

    closed spec fn view(&self) -> Seq<u8> {
        self.bytes@
    }
}

impl ScriptPath {
    /// The path with a NUL behind it; none for an empty one.
    pub fn new(bytes: Vec<u8>) -> (r: Option<Self>)
        ensures
            match r {
                Some(path) => bytes@.len() > 0 && path@ == bytes@.push(0),
                None => bytes@.len() == 0,
            },
    {
        if bytes.len() == 0 {
            return None;
        }
        let mut bytes = bytes;
        bytes.push(0);
        Some(ScriptPath { bytes })
    }

    /// The path with its NUL.
    pub fn as_bytes_with_nul(&self) -> (r: &[u8])
        ensures
            r@ == self@,
    {
        self.bytes.as_slice()
    }
}

/// What a handler wants of its thread, in the state in which the thread is.
#[derive(Debug)]
pub enum HandlerAction {
    /// Let the next handler take over. `leave`: the thread takes no more requests.
    HandOver { leave: bool },
    /// End the thread's loop. `leave`: the thread takes no more requests.
    Stop { leave: bool },
    /// Publish a state and decide again.
    Publish(State),
    /// Tell the interpreter that the thread runs plain requests, then publish that it is ready.
    Prepare,
    /// Publish a state and wait, noted as waiting for work, until any of the others comes.
    Park { state: State, until: Vec<State> },
    /// Wait, noted as waiting for work, for a request or the end of the drain channel.
    AwaitRequest,
    /// The state is none of this handler's: wait until one of these comes.
    AwaitKnown(Vec<State>),
}

/// A [`HandlerAction`] with what its lists hold.
pub enum Decision {
    HandOver { leave: bool },
    Stop { leave: bool },
    Publish(State),
    Prepare,
    Park { state: State, until: Seq<State> },
    AwaitRequest,
    AwaitKnown(Seq<State>),
}

impl View for HandlerAction {
    type V = Decision;

    open spec fn view(&self) -> Decision {
        match self {
            HandlerAction::HandOver { leave } => Decision::HandOver { leave: *leave },
            HandlerAction::Stop { leave } => Decision::Stop { leave: *leave },
            HandlerAction::Publish(state) => Decision::Publish(*state),
            HandlerAction::Prepare => Decision::Prepare,
            HandlerAction::Park { state, until } => Decision::Park { state: *state, until: until@ },
            HandlerAction::AwaitRequest => Decision::AwaitRequest,
            HandlerAction::AwaitKnown(states) => Decision::AwaitKnown(states@),
        }
    }
}

/// Whether a context was taken away with its request finished.
pub open spec fn request_ended(
    before: Option<RequestContext>,
    ended: Option<RequestContext>,
) -> bool {
    match before {
        Some(ctx) => ended matches Some(after) && context::closed_form(ctx, after),
        None => ended is None,
    }
}

/// What a PHP thread runs.
///
/// A handler answers that the loop is to end only before it has taken a request: the
/// interpreter asks for cleanup only after a script.
pub trait ThreadHandler: Send + Sync {
    /// The name.
    spec fn title(&self) -> Seq<char>;

    /// What the thread is called in the middle of a line.
    spec fn label(&self) -> Seq<char>;

    /// What is to be done in a state.
    spec fn decides(&self, state: State) -> Decision;

    /// Whether the thread's request ends with its script.
    spec fn ends_requests(&self) -> bool;

    fn name(&self) -> (r: &str)
        ensures
            r@ == self.title(),
    ;

    /// What the thread is called in the middle of a line.
    fn log_name(&self) -> (r: &str)
        ensures
            r@ == self.label(),
    ;

    /// What is to be done in a state, before a script can run.
    fn before_script_execution(&self, state: State) -> (r: HandlerAction)
        ensures
            r@ == self.decides(state),
    ;

    /// Cleans up behind a script, and gives back the context that it ended.
    fn after_script_execution(
        &self,
        slots: &mut ContextSlots,
        thread_index: usize,
        exit_status: i32,
    ) -> (r: Option<RequestContext>)
        ensures
            forall|i: int| i != thread_index ==> #[trigger] final(slots).at(i) == old(slots).at(i),
            self.ends_requests() ==> request_ended(old(slots).at(thread_index as int), r)
                && final(slots).at(thread_index as int) is None,
            !self.ends_requests() ==> r is None && final(slots).at(thread_index as int) == old(
                slots,
            ).at(thread_index as int),
    ;
}

/// What became of a wait for a request.
pub enum Delivery {
    /// No request came: decide again.
    Nothing,
    /// The request had no script and is finished: wait for the next one.
    Ended(RequestContext),
    /// The thread has the request: run its script.
    Run(ScriptPath),
}

/// How far a thread has got before a script can run.
pub enum Progress {
    /// The thread's loop ends.
    Stop { leave: bool },
    /// Wait until this ticket is no longer pending; then the next handler decides.
    HandOver { leave: bool, ticket: u64 },
    /// A state was published: decide again.
    Again,
    /// Tell the interpreter that the thread runs plain requests, then call
    /// [`PhpThread::prepared`].
    Prepare,
    /// Wait, then note that the thread does not wait for work any more and decide again.
    Parked(Wait),
    /// Wait for a request or for the end of this generation.
    AwaitRequest(DrainReceiver),
    /// Say that the state is unexpected, wait, and decide again.
    Unexpected { state: State, wait: Wait },
}

/// What became of a wish to change a thread's handler.
#[derive(Debug)]
pub enum HandlerChange {
    /// The thread is gone or about to go.
    Rejected,
    /// Wait until this ticket is no longer pending and ask again.
    Later(u64),
    /// The thread has no open generation, so it could not be woken.
    NotDrainable,
    /// Wait until the ticket is no longer pending; then complete the change.
    Started { closed: ClosedDrainGeneration, ticket: u64 },
}

/// What became of a wish to shut a thread down.
#[derive(Debug)]
pub enum ShutdownStart {
    /// There is nothing to shut down.
    NothingToDo,
    /// Wait until this ticket is no longer pending and ask again.
    Later(u64),
    /// The thread has no open generation, so it could not be woken.
    NotDrainable,
    /// The thread was told; finish with this once it is done.
    Started(ClosedDrainGeneration),
}

/// How far the shutdown of a thread has got.
#[derive(Debug)]
pub enum ShutdownPhase {
    /// The thread is to be told to end.
    Asking,
    /// The thread was told, and it has some time to end.
    Grace(ClosedDrainGeneration),
    /// The time is up and the thread was interrupted. It is waited for without a limit: what it
    /// uses must not go while it runs.
    Forced(ClosedDrainGeneration),
}

/// What a step of a thread's shutdown asks for.
#[derive(Debug)]
pub enum ShutdownStep {
    /// Nothing is left to do.
    Finished,
    /// The thread has no open generation, so it could not be woken.
    NotDrainable,
    /// The time that the thread has begins to run: take the next step from here.
    GracePeriodStarts(ShutdownPhase),
    /// Wait until this ticket is no longer pending, then go on from here.
    Await { ticket: u64, next: ShutdownPhase },
    /// Wait until this ticket is no longer pending or the time is up, then go on from here.
    AwaitUntilDeadline { ticket: u64, next: ShutdownPhase },
    /// Say that the thread is interrupted, interrupt it, and go on from here.
    ForceKill { slot: Option<ForceKillSlot>, next: ShutdownPhase },
}

/// Where the interpreter can be interrupted while it runs a script on a thread: two flags and
/// the thread, by their addresses.
#[derive(Clone, Copy, Debug, PartialEq, Eq, Structural)]
pub struct ForceKillSlot {
    pub vm_interrupt: usize,
    pub timed_out: usize,
    pub tid: usize,
}

/// Why PHP threads could not be started.
#[derive(Clone, Copy, Debug, PartialEq, Eq, Structural)]
pub enum ThreadError {
    AlreadyInitialized,
    InvalidThreadCount { num_threads: usize, max_threads: MaxThreads },
    MainThreadCreation { code: i32 },
    PhpThreadCreation { thread_index: usize },
    InvalidBootState { thread_index: usize, state: State },
}

/// How many threads there may be: so many, or as many as memory allows.
#[derive(Clone, Copy, Debug, PartialEq, Eq, Structural)]
pub enum MaxThreads {
    Fixed(usize),
    Auto,
}

impl MaxThreads {
    /// As it stands in messages.
    pub open spec fn text(self) -> Seq<char> {
        match self {
            MaxThreads::Fixed(count) => "Fixed("@ + text::decimal_chars(count as nat) + ")"@,
            MaxThreads::Auto => "Auto"@,
        }
    }
}

/// A whole number as it stands in messages.
pub open spec fn signed_chars(n: int) -> Seq<char> {
    if n < 0 {
        "-"@ + text::decimal_chars((-n) as nat)
    } else {
        text::decimal_chars(n as nat)
    }
}

impl ThreadError {
    /// The message.
    pub open spec fn text(self) -> Seq<char> {
        match self {
            ThreadError::AlreadyInitialized => "PHP threads are already initialized"@,
            ThreadError::InvalidThreadCount { num_threads, max_threads } =>
                "invalid PHP thread counts: num_threads="@ + text::decimal_chars(num_threads as nat)
                + ", max_threads="@ + max_threads.text(),
            ThreadError::MainThreadCreation { code } =>
                "unable to create PHP main thread (code "@ + signed_chars(code as int) + ")"@,
            ThreadError::PhpThreadCreation { thread_index } => "unable to create PHP thread "@
                + text::decimal_chars(thread_index as nat),
            ThreadError::InvalidBootState { thread_index, state } => "cannot boot PHP thread "@
                + text::decimal_chars(thread_index as nat) + " from state "@ + state.name_spec(),
        }
    }

    /// The message.
    pub fn message(&self) -> (r: String)
        ensures
            r@ == self.text(),
    {
        match self {
            ThreadError::AlreadyInitialized => "PHP threads are already initialized".to_owned(),
            ThreadError::InvalidThreadCount { num_threads, max_threads } => {
                let mut r = "invalid PHP thread counts: num_threads=".to_owned();
                r.append(text::decimal_string(*num_threads as u64).as_str());
                r.append(", max_threads=");
                match max_threads {
                    MaxThreads::Fixed(count) => {
                        r.append("Fixed(");
                        r.append(text::decimal_string(*count as u64).as_str());
                        r.append(")");
                        assert(r@ =~= self.text());
                    },
                    MaxThreads::Auto => {
                        r.append("Auto");
                    },
                }
                r
            },
            ThreadError::MainThreadCreation { code } => {
                let mut r = "unable to create PHP main thread (code ".to_owned();
                if *code < 0 {
                    let magnitude: i64 = -(*code as i64);
                    r.append("-");
                    r.append(text::decimal_string(magnitude as u64).as_str());
                } else {
                    r.append(text::decimal_string(*code as u64).as_str());
                }
                r.append(")");
                assert(r@ =~= self.text());
                r
            },
            ThreadError::PhpThreadCreation { thread_index } => {
                let mut r = "unable to create PHP thread ".to_owned();
                r.append(text::decimal_string(*thread_index as u64).as_str());
                r
            },
            ThreadError::InvalidBootState { thread_index, state } => {
                let mut r = "cannot boot PHP thread ".to_owned();
                r.append(text::decimal_string(*thread_index as u64).as_str());
                r.append(" from state ");
                r.append(state.name());
                r
            },
        }
    }
}

/// What is known of one PHP thread.
pub struct PhpThread {
    thread_index: usize,
    lifecycle: ThreadState,
    handler: Option<Box<dyn ThreadHandler>>,
    drain: DrainChannel,
    script_path: Option<ScriptPath>,
    force_kill: Option<ForceKillSlot>,
}

/// What there is to know of a [`PhpThread`].
pub struct PhpThreadView {
    pub index: usize,
    pub lifecycle: Lifecycle,
    pub handler: Option<Box<dyn ThreadHandler>>,
    pub drain: DrainChannel,
    pub script_path: Option<Seq<u8>>,
    pub force_kill: Option<ForceKillSlot>,
}

impl View for PhpThread {
    type V = PhpThreadView;

    closed spec fn view(&self) -> PhpThreadView {
        PhpThreadView {
            index: self.thread_index,
            lifecycle: self.lifecycle@,
            handler: self.handler,
            drain: self.drain,
            script_path: match self.script_path {
                Some(path) => Some(path@),
                None => None,
            },
            force_kill: self.force_kill,
        }
    }
}

/// The name of what a thread runs.
pub open spec fn handler_title(handler: Option<Box<dyn ThreadHandler>>) -> Seq<char> {
    match handler {
        Some(handler) => handler.title(),
        None => "unknown"@,
    }
}

/// What a thread is called in the middle of a line, by what it runs.
pub open spec fn handler_label(handler: Option<Box<dyn ThreadHandler>>) -> Seq<char> {
    match handler {
        Some(handler) => handler.label(),
        None => "unknown"@,
    }
}

/// Whether the boot of a thread has begun: it runs nothing, and its drain channel is at a new
/// generation.
pub open spec fn boot_begun(before: PhpThreadView, after: PhpThreadView) -> bool {
    &&& before.lifecycle.current == State::Reserved || before.lifecycle.current
        == State::BootRequested
    &&& after == (PhpThreadView {
        lifecycle: before.lifecycle.published(State::Booting),
        handler: after.handler,
        drain: after.drain,
        ..before
    })
    &&& after.handler matches Some(handler) && handler.title() == "Inactive PHP Thread"@
        && handler.label() == "inactive PHP thread"@ && !handler.ends_requests() && forall|state: State| #[trigger]
        handler.decides(state) == thread_inactive::inactive_decision(state)
    &&& before.drain.is_open() ==> DrainChannel::is_next(before.drain, after.drain)
    &&& !before.drain.is_open() ==> DrainChannel::is_closed_form(before.drain, after.drain)
}

/// Whether a thread is reserved, runs nothing and was never used.
pub open spec fn is_fresh(t: PhpThreadView, index: int) -> bool {
    &&& t.index == index
    &&& t.lifecycle == state::fresh_lifecycle()
    &&& t.handler is None
    &&& t.drain.is_open()
    &&& t.drain.tag() == 0
    &&& t.script_path is None
    &&& t.force_kill is None
}

/// What a thread's step comes to, and what it makes of the thread.
pub open spec fn stepped(
    before: PhpThreadView,
    decision: Decision,
    now: UnixTime,
    r: Progress,
    after: PhpThreadView,
) -> bool {
    let l = before.lifecycle;
    let end = match decision {
        Decision::HandOver { .. } => l.published(State::TransitionInProgress).waiting_for(
            seq![State::TransitionComplete],
        ),
        Decision::Stop { .. } => l,
        Decision::Publish(state) => l.published(state),
        Decision::Prepare => l,
        Decision::Park { state, until } => l.published(state).marked(
            now.millis_since_epoch(),
        ).waiting_for(until),
        Decision::AwaitRequest => l.marked(now.millis_since_epoch()),
        Decision::AwaitKnown(states) => l.waiting_for(states),
    };
    &&& after == (PhpThreadView { lifecycle: end, ..before })
    &&& match decision {
        Decision::HandOver { leave } => r matches Progress::HandOver { leave: l2, ticket } && l2
            == leave && ticket == l.issued,
        Decision::Stop { leave } => r matches Progress::Stop { leave: l2 } && l2 == leave,
        Decision::Publish(_) => r is Again,
        Decision::Prepare => r is Prepare,
        Decision::Park { state, until } => r matches Progress::Parked(wait) && wait == l.published(
            state,
        ).wait(until),
        Decision::AwaitRequest => r matches Progress::AwaitRequest(receiver) && receiver.tag()
            == before.drain.tag() && receiver.channel() == before.drain.channel(),
        Decision::AwaitKnown(states) => r matches Progress::Unexpected { state, wait } && state
            == l.current && wait == l.wait(states),
    }
}

/// What a wish to change a thread's handler comes to, and what it makes of the thread.
pub open spec fn handler_change_begun(
    before: PhpThreadView,
    r: HandlerChange,
    after: PhpThreadView,
) -> bool {
    let l = before.lifecycle;
    let stable = l.current == State::Ready || l.current == State::Inactive;
    let gone = l.current == State::Reserved || l.current == State::ShuttingDown || l.current
        == State::Done;
    match r {
        HandlerChange::Rejected => gone && after == before,
        HandlerChange::Later(ticket) => {
            &&& !stable && !gone
            &&& ticket == l.issued
            &&& after == (PhpThreadView {
                lifecycle: l.waiting_for(seq![State::Ready, State::Inactive, State::Reserved]),
                ..before
            })
        },
        HandlerChange::NotDrainable => {
            &&& stable && !before.drain.is_open()
            &&& after == (PhpThreadView {
                lifecycle: l.published(State::TransitionRequested),
                drain: after.drain,
                ..before
            })
            &&& DrainChannel::is_closed_form(before.drain, after.drain)
        },
        HandlerChange::Started { closed, ticket } => {
            &&& stable && before.drain.is_open()
            &&& closed.generation == before.drain.tag()
            &&& ticket == l.issued
            &&& after == (PhpThreadView {
                lifecycle: l.published(State::TransitionRequested).waiting_for(
                    seq![State::TransitionInProgress],
                ),
                drain: after.drain,
                ..before
            })
            &&& DrainChannel::is_closed_form(before.drain, after.drain)
        },
    }
}

/// What a wish to shut a thread down comes to, and what it makes of the thread: one that is done
/// becomes reserved, one in a stable state is told by its state and the end of its generation,
/// and between two stable states one has to wait.
pub open spec fn shutdown_begun(
    before: PhpThreadView,
    r: ShutdownStart,
    after: PhpThreadView,
) -> bool {
    let l = before.lifecycle;
    let stable = l.current == State::Ready || l.current == State::Inactive;
    let gone = l.current == State::Reserved || l.current == State::ShuttingDown || l.current
        == State::Done;
    match r {
        ShutdownStart::NothingToDo => gone && after == (PhpThreadView {
            lifecycle: if l.current == State::Done {
                l.published(State::Reserved)
            } else {
                l
            },
            ..before
        }),
        ShutdownStart::Later(ticket) => {
            &&& !stable && !gone
            &&& ticket == l.issued
            &&& after == (PhpThreadView {
                lifecycle: l.waiting_for(seq![State::Ready, State::Inactive, State::Reserved]),
                ..before
            })
        },
        ShutdownStart::NotDrainable => {
            &&& stable && !before.drain.is_open()
            &&& after == (PhpThreadView {
                lifecycle: l.published(State::ShuttingDown),
                drain: after.drain,
                ..before
            })
            &&& DrainChannel::is_closed_form(before.drain, after.drain)
        },
        ShutdownStart::Started(closed) => {
            &&& stable && before.drain.is_open()
            &&& closed.generation == before.drain.tag()
            &&& after == (PhpThreadView {
                lifecycle: l.published(State::ShuttingDown),
                drain: after.drain,
                ..before
            })
            &&& DrainChannel::is_closed_form(before.drain, after.drain)
        },
    }
}

/// What the end of a shutdown makes of a thread.
pub open spec fn shutdown_finished(
    before: PhpThreadView,
    generation: u64,
    after: PhpThreadView,
) -> bool {
    &&& after == (PhpThreadView {
        lifecycle: before.lifecycle.published(State::Reserved),
        drain: after.drain,
        ..before
    })
    &&& if generation == before.drain.tag() && !before.drain.is_open() {
        DrainChannel::is_next(before.drain, after.drain)
    } else {
        after.drain == before.drain
    }
}

/// What a step of a thread's shutdown comes to, and what it makes of the thread.
pub open spec fn shutdown_stepped(
    before: PhpThreadView,
    phase: ShutdownPhase,
    time_is_up: bool,
    r: ShutdownStep,
    after: PhpThreadView,
) -> bool {
    let ended = before.lifecycle.current == State::Done;
    let waiting = PhpThreadView {
        lifecycle: before.lifecycle.waiting_for(seq![State::Done]),
        ..before
    };
    match phase {
        ShutdownPhase::Asking => exists|start: ShutdownStart| #[trigger]
            shutdown_begun(before, start, after) && r == (match start {
                ShutdownStart::NothingToDo => ShutdownStep::Finished,
                ShutdownStart::Later(ticket) => ShutdownStep::Await {
                    ticket,
                    next: ShutdownPhase::Asking,
                },
                ShutdownStart::NotDrainable => ShutdownStep::NotDrainable,
                ShutdownStart::Started(closed) => ShutdownStep::GracePeriodStarts(
                    ShutdownPhase::Grace(closed),
                ),
            }),
        ShutdownPhase::Grace(closed) => if ended {
            r == ShutdownStep::Finished && shutdown_finished(before, closed.generation, after)
        } else if time_is_up {
            &&& r == (ShutdownStep::ForceKill {
                slot: before.force_kill,
                next: ShutdownPhase::Forced(closed),
            })
            &&& after == before
        } else {
            &&& r == (ShutdownStep::AwaitUntilDeadline {
                ticket: before.lifecycle.issued as u64,
                next: phase,
            })
            &&& after == waiting
        },
        ShutdownPhase::Forced(closed) => if ended {
            r == ShutdownStep::Finished && shutdown_finished(before, closed.generation, after)
        } else {
            &&& r == (ShutdownStep::Await {
                ticket: before.lifecycle.issued as u64,
                next: phase,
            })
            &&& after == waiting
        },
    }
}

/// A thread that was told to end is let go only once it has ended: whatever the time, a shutdown
/// that has told it finishes only in the state in which the thread is done, and leaves it
/// reserved.
pub proof fn lemma_shutdown_waits_for_the_end(
    before: PhpThreadView,
    phase: ShutdownPhase,
    time_is_up: bool,
    r: ShutdownStep,
    after: PhpThreadView,
)
    requires
        shutdown_stepped(before, phase, time_is_up, r, after),
        !(phase is Asking),
    ensures
        (r is Finished) == (before.lifecycle.current == State::Done),
        r is Finished ==> after.lifecycle.current == State::Reserved,
        !(r is Finished) ==> after.lifecycle.current == before.lifecycle.current,
{
}

impl PhpThread {
    /// A reserved thread that runs nothing.
    pub fn new(thread_index: usize) -> (r: Self)
        ensures
            is_fresh(r@, thread_index as int),
    {
        PhpThread {
            thread_index,
            lifecycle: ThreadState::new(),
            handler: None,
            drain: DrainChannel::new(),
            script_path: None,
            force_kill: None,
        }
    }

    /// Whether the thread has this number, is reserved, runs nothing and was never used.
    pub fn is_unused(&self, thread_index: usize) -> (r: bool)
        ensures
            r == is_fresh(self@, thread_index as int),
    {
        self.thread_index == thread_index && self.lifecycle.is_new() && self.handler.is_none()
            && self.drain.is_first() && self.script_path.is_none() && self.force_kill.is_none()
    }

    /// The thread's number.
    pub fn index(&self) -> (r: usize)
        ensures
            r == self@.index,
    {
        self.thread_index
    }

    /// The thread's state. Nobody outside publishes one: that releases interpreter threads.
    pub fn state(&self) -> (r: State)
        ensures
            r == self@.lifecycle.current,
    {
        self.lifecycle.get()
    }

    /// A receiver of the current generation. There always is one, closed or not.
    pub fn drain_receiver(&self) -> (r: DrainReceiver)
        ensures
            r.tag() == self@.drain.tag(),
            r.channel() == self@.drain.channel(),
    {
        self.drain.receiver()
    }

    /// The name of what the thread runs.
    pub fn name(&self) -> (r: String)
        ensures
            r@ == handler_title(self@.handler),
    {
        match &self.handler {
            Some(handler) => handler.name().to_owned(),
            None => "unknown".to_owned(),
        }
    }

    /// What the thread is called in the middle of a line.
    pub fn log_name(&self) -> (r: String)
        ensures
            r@ == handler_label(self@.handler),
    {
        match &self.handler {
            Some(handler) => handler.log_name().to_owned(),
            None => "unknown".to_owned(),
        }
    }

    /// Starts to wait for any of `states`.
    pub fn wait_for(&mut self, states: &[State]) -> (r: Wait)
        requires
            old(self)@.lifecycle.issued < u64::MAX,
        ensures
            r == old(self)@.lifecycle.wait(states@),
            final(self)@ == (PhpThreadView {
                lifecycle: old(self)@.lifecycle.waiting_for(states@),
                ..old(self)@
            }),
    {
        self.lifecycle.wait_for(states)
    }

    /// Whether a ticket is pending.
    pub fn is_pending(&self, ticket: u64) -> (r: bool)
        ensures
            r == state::pending(self@.lifecycle.waiters, ticket),
    {
        self.lifecycle.is_pending(ticket)
    }

    /// One look at a wait with a time limit: whether the state was reached, once that is known.
    pub fn wait_for_state_with_timeout(&mut self, ticket: u64, time_is_up: bool) -> (r: Option<bool>)
        ensures
            r == (if !state::pending(old(self)@.lifecycle.waiters, ticket) {
                Some(true)
            } else if time_is_up {
                Some(false)
            } else {
                None
            }),
            final(self)@ == (PhpThreadView {
                lifecycle: if r == Some(false) {
                    old(self)@.lifecycle.given_up(ticket)
                } else {
                    old(self)@.lifecycle
                },
                ..old(self)@
            }),
    {
        self.lifecycle.wait_for_state_with_timeout(ticket, time_is_up)
    }

    /// Whether the thread cannot be waited for any more: every ticket has been given out.
    pub fn tickets_spent(&self) -> (r: bool)
        ensures
            r == (self@.lifecycle.issued >= u64::MAX),
    {
        self.lifecycle.issued == u64::MAX
    }

    /// Asks for the boot of a reserved thread, and says whether it was one.
    pub fn request_boot(&mut self) -> (r: bool)
        ensures
            r == (old(self)@.lifecycle.current == State::Reserved),
            final(self)@ == (PhpThreadView {
                lifecycle: if r {
                    old(self)@.lifecycle.published(State::BootRequested)
                } else {
                    old(self)@.lifecycle
                },
                ..old(self)@
            }),
    {
        self.lifecycle.compare_and_swap(State::Reserved, State::BootRequested)
    }

    /// Begins to boot a reserved thread, or one whose boot was asked for: the thread is to run
    /// nothing at first, and its drain channel begins a new generation. What follows is to start
    /// the interpreter's thread and to call [`PhpThread::finish_boot`].
    pub fn begin_boot(&mut self) -> (r: Result<(), ThreadError>)
        ensures
            match r {
                Ok(_) => boot_begun(old(self)@, final(self)@),
                Err(e) => {
                    &&& old(self)@.lifecycle.current != State::Reserved
                    &&& old(self)@.lifecycle.current != State::BootRequested
                    &&& e == (ThreadError::InvalidBootState {
                        thread_index: old(self)@.index,
                        state: old(self)@.lifecycle.current,
                    })
                    &&& final(self)@ == old(self)@
                },
            },
    {
        if !self.lifecycle.compare_and_swap(State::Reserved, State::Booting)
            && !self.lifecycle.compare_and_swap(State::BootRequested, State::Booting) {
            return Err(
                ThreadError::InvalidBootState {
                    thread_index: self.thread_index,
                    state: self.lifecycle.get(),
                },
            );
        }
        let inactive: Box<dyn ThreadHandler> = Box::new(InactiveThread);
        let held = Some(inactive);
        self.handler = held;
        self.drain.renew();
        Ok(())
    }

    /// Goes on with a boot once the interpreter's thread was started, or was not. Wait until the
    /// thread is inactive.
    pub fn finish_boot(&mut self, launched: bool) -> (r: Result<Wait, ThreadError>)
        requires
            old(self)@.lifecycle.issued < u64::MAX,
        ensures
            launched ==> r == Ok::<Wait, ThreadError>(
                old(self)@.lifecycle.wait(seq![State::Inactive]),
            ),
            !launched ==> r == Err::<Wait, ThreadError>(
                ThreadError::PhpThreadCreation { thread_index: old(self)@.index },
            ),
            final(self)@ == (PhpThreadView {
                lifecycle: if launched {
                    old(self)@.lifecycle.waiting_for(seq![State::Inactive])
                } else {
                    old(self)@.lifecycle.published(State::Reserved)
                },
                ..old(self)@
            }),
    {
        if !launched {
            self.lifecycle.set(State::Reserved);
            return Err(ThreadError::PhpThreadCreation { thread_index: self.thread_index });
        }
        let states = [State::Inactive];
        assert(states@ =~= seq![State::Inactive]);
        Ok(self.lifecycle.wait_for(states.as_slice()))
    }

    /// Asks a thread to let another handler take over. The state and the close of the drain
    /// channel wake it wherever it is parked.
    pub fn begin_set_handler(&mut self) -> (r: HandlerChange)
        requires
            old(self)@.lifecycle.issued < u64::MAX,
        ensures
            handler_change_begun(old(self)@, r, final(self)@),
    {
        match self.lifecycle.request_safe_state_change(State::TransitionRequested) {
            SafeChange::Rejected => HandlerChange::Rejected,
            SafeChange::Later(ticket) => HandlerChange::Later(ticket),
            SafeChange::Accepted => match self.drain.close() {
                None => HandlerChange::NotDrainable,
                Some(closed) => {
                    let states = [State::TransitionInProgress];
                    assert(states@ =~= seq![State::TransitionInProgress]);
                    match self.lifecycle.wait_for(states.as_slice()) {
                        Wait::Pending(ticket) => HandlerChange::Started { closed, ticket },
                        Wait::Reached => HandlerChange::NotDrainable,
                    }
                },
            },
        }
    }

    /// Puts the handler in place, once the thread waits for it, and lets it go on with a new
    /// generation of its drain channel.
    pub fn complete_set_handler(
        &mut self,
        handler: Box<dyn ThreadHandler>,
        closed: ClosedDrainGeneration,
    )
        ensures
            final(self)@ == (PhpThreadView {
                lifecycle: old(self)@.lifecycle.published(State::TransitionComplete),
                handler: final(self)@.handler,
                drain: final(self)@.drain,
                ..old(self)@
            }),
            final(self)@.handler matches Some(held) && held.title() == handler.title()
                && held.label() == handler.label()
                && held.ends_requests() == handler.ends_requests() && forall|state: State| #[trigger]
                held.decides(state) == handler.decides(state),
            closed.generation == old(self)@.drain.tag() && !old(self)@.drain.is_open()
                ==> DrainChannel::is_next(old(self)@.drain, final(self)@.drain),
            !(closed.generation == old(self)@.drain.tag() && !old(self)@.drain.is_open())
                ==> final(self)@.drain == old(self)@.drain,
    {
        let held = Some(handler);
        self.handler = held;
        self.drain.reopen(closed);
        self.lifecycle.set(State::TransitionComplete);
    }

    /// One step of the thread, before a script can run: asks the handler what the state calls
    /// for, and does of it what does not block. A thread that runs nothing ends its loop.
    pub fn before_script_execution(&mut self, now: UnixTime) -> (r: Progress)
        requires
            old(self)@.lifecycle.issued < u64::MAX,
            now.nanos < 1_000_000_000,
        ensures
            match old(self)@.handler {
                Some(handler) => stepped(
                    old(self)@,
                    handler.decides(old(self)@.lifecycle.current),
                    now,
                    r,
                    final(self)@,
                ),
                None => r matches Progress::Stop { leave } && !leave && final(self)@ == old(self)@,
            },
    {
        let action = match &self.handler {
            Some(handler) => handler.before_script_execution(self.lifecycle.get()),
            None => return Progress::Stop { leave: false },
        };
        match action {
            HandlerAction::HandOver { leave } => {
                self.lifecycle.set(State::TransitionInProgress);
                let states = [State::TransitionComplete];
                assert(states@ =~= seq![State::TransitionComplete]);
                match self.lifecycle.wait_for(states.as_slice()) {
                    Wait::Pending(ticket) => Progress::HandOver { leave, ticket },
                    Wait::Reached => Progress::Again,
                }
            },
            HandlerAction::Stop { leave } => Progress::Stop { leave },
            HandlerAction::Publish(state) => {
                self.lifecycle.set(state);
                Progress::Again
            },
            HandlerAction::Prepare => Progress::Prepare,
            HandlerAction::Park { state, until } => {
                self.lifecycle.set(state);
                self.lifecycle.mark_as_waiting(true, now);
                Progress::Parked(self.lifecycle.wait_for(until.as_slice()))
            },
            HandlerAction::AwaitRequest => {
                self.lifecycle.mark_as_waiting(true, now);
                Progress::AwaitRequest(self.drain.receiver())
            },
            HandlerAction::AwaitKnown(states) => {
                let state = self.lifecycle.get();
                Progress::Unexpected { state, wait: self.lifecycle.wait_for(states.as_slice()) }
            },
        }
    }

    /// Notes that the thread does not wait for work any more.
    pub fn resumed(&mut self)
        ensures
            final(self)@ == (PhpThreadView {
                lifecycle: old(self)@.lifecycle.marked(0),
                ..old(self)@
            }),
    {
        let epoch = UnixTime { before_epoch: false, secs: 0, nanos: 0 };
        self.lifecycle.mark_as_waiting(false, epoch);
    }

    /// Publishes that the thread is ready, once the interpreter knows what the thread runs.
    pub fn prepared(&mut self)
        ensures
            final(self)@ == (PhpThreadView {
                lifecycle: old(self)@.lifecycle.published(State::Ready),
                ..old(self)@
            }),
    {
        self.lifecycle.set(State::Ready);
    }

    /// Takes a request that was delivered, and gives the path of its script. A request without
    /// a script runs nothing: it is finished on the spot and given back, and the thread goes on
    /// waiting, since cleanup is asked for only behind a script. Nothing came where a sender was
    /// gone or the generation ended.
    pub fn delivered(
        &mut self,
        slots: &mut ContextSlots,
        request: Option<RequestContext>,
    ) -> (r: Delivery)
        ensures
            final(self)@ == (PhpThreadView {
                lifecycle: old(self)@.lifecycle.marked(0),
                ..old(self)@
            }),
            forall|i: int| i != old(self)@.index ==> #[trigger] final(slots).at(i) == old(slots).at(i),
            ({
                let at = old(self)@.index as int;
                match request {
                    Some(ctx) if ctx.script_filename@.len() > 0 => {
                        &&& r matches Delivery::Run(path) && path@ == ctx.script_filename@.push(0)
                        &&& final(slots).at(at) == Some(ctx)
                    },
                    Some(ctx) => {
                        &&& r matches Delivery::Ended(ended) && context::closed_form(ctx, ended)
                        &&& final(slots).at(at) == old(slots).at(at)
                    },
                    None => r is Nothing && final(slots).at(at) == old(slots).at(at),
                }
            }),
    {
        self.resumed();
        match request {
            None => Delivery::Nothing,
            Some(ctx) => {
                let mut ctx = ctx;
                match ScriptPath::new(text::to_vec(ctx.script_filename.as_slice())) {
                    Some(path) => {
                        slots.set(self.thread_index, ctx);
                        Delivery::Run(path)
                    },
                    None => {
                        ctx.close_context();
                        Delivery::Ended(ctx)
                    },
                }
            },
        }
    }

    /// Lets the handler clean up behind a script, and gives back the context that it ended.
    pub fn after_script_execution(
        &mut self,
        slots: &mut ContextSlots,
        exit_status: i32,
    ) -> (r: Option<RequestContext>)
        ensures
            final(self)@ == old(self)@,
            forall|i: int| i != old(self)@.index ==> #[trigger] final(slots).at(i) == old(slots).at(i),
            ({
                let at = old(self)@.index as int;
                if old(self)@.handler matches Some(handler) && handler.ends_requests() {
                    request_ended(old(slots).at(at), r) && final(slots).at(at) is None
                } else {
                    r is None && final(slots).at(at) == old(slots).at(at)
                }
            }),
    {
        match &self.handler {
            Some(handler) => handler.after_script_execution(
                slots,
                self.thread_index,
                exit_status,
            ),
            None => None,
        }
    }

    /// Keeps a script's path while the interpreter reads it.
    pub fn publish_script_path(&mut self, path: ScriptPath)
        ensures
            final(self)@ == (PhpThreadView { script_path: Some(path@), ..old(self)@ }),
    {
        self.script_path = Some(path);
    }

    /// The path that is kept, with its NUL.
    pub fn script_path(&self) -> (r: Option<&[u8]>)
        ensures
            match r {
                Some(bytes) => self@.script_path == Some(bytes@),
                None => self@.script_path is None,
            },
    {
        match &self.script_path {
            Some(path) => Some(path.as_bytes_with_nul()),
            None => None,
        }
    }

    /// Lets the script's path go.
    pub fn release_script_path(&mut self)
        ensures
            final(self)@ == (PhpThreadView { script_path: None, ..old(self)@ }),
    {
        self.script_path = None;
    }

    /// Keeps where the thread can be interrupted, and gives back what was kept before, which is
    /// to be released.
    pub fn store_force_kill_slot(&mut self, slot: ForceKillSlot) -> (r: Option<ForceKillSlot>)
        ensures
            r == old(self)@.force_kill,
            final(self)@ == (PhpThreadView { force_kill: Some(slot), ..old(self)@ }),
    {
        let previous = self.force_kill;
        self.force_kill = Some(slot);
        previous
    }

    /// Forgets where the thread can be interrupted, and gives back what is to be released.
    pub fn clear_force_kill_slot(&mut self) -> (r: Option<ForceKillSlot>)
        ensures
            r == old(self)@.force_kill,
            final(self)@ == (PhpThreadView { force_kill: None, ..old(self)@ }),
    {
        let previous = self.force_kill;
        self.force_kill = None;
        previous
    }

    /// Where the thread can be interrupted.
    pub fn force_kill_slot(&self) -> (r: Option<ForceKillSlot>)
        ensures
            r == self@.force_kill,
    {
        self.force_kill
    }

    /// Tells a thread to end. A thread that is done already becomes reserved. The state and the
    /// close of the drain channel wake it wherever it is parked.
    pub fn begin_shutdown(&mut self) -> (r: ShutdownStart)
        requires
            old(self)@.lifecycle.issued < u64::MAX,
        ensures
            shutdown_begun(old(self)@, r, final(self)@),
    {
        match self.lifecycle.request_safe_state_change(State::ShuttingDown) {
            SafeChange::Rejected => {
                self.lifecycle.compare_and_swap(State::Done, State::Reserved);
                ShutdownStart::NothingToDo
            },
            SafeChange::Later(ticket) => ShutdownStart::Later(ticket),
            SafeChange::Accepted => match self.drain.close() {
                None => ShutdownStart::NotDrainable,
                Some(closed) => ShutdownStart::Started(closed),
            },
        }
    }

    /// Makes a thread that has ended reserved, with a new generation of its drain channel.
    pub fn finish_shutdown(&mut self, closed: ClosedDrainGeneration)
        ensures
            shutdown_finished(old(self)@, closed.generation, final(self)@),
    {
        self.drain.reopen(closed);
        self.lifecycle.set(State::Reserved);
    }

    /// One step of the thread's shutdown, which makes it reserved again.
    pub fn shutdown(&mut self, phase: ShutdownPhase, time_is_up: bool) -> (r: ShutdownStep)
        requires
            old(self)@.lifecycle.issued < u64::MAX,
        ensures
            shutdown_stepped(old(self)@, phase, time_is_up, r, final(self)@),
    {
        match phase {
            ShutdownPhase::Asking => {
                let start = self.begin_shutdown();
                assert(shutdown_begun(old(self)@, start, self@));
                match start {
                    ShutdownStart::NothingToDo => ShutdownStep::Finished,
                    ShutdownStart::Later(ticket) => ShutdownStep::Await {
                        ticket,
                        next: ShutdownPhase::Asking,
                    },
                    ShutdownStart::NotDrainable => ShutdownStep::NotDrainable,
                    ShutdownStart::Started(closed) => ShutdownStep::GracePeriodStarts(
                        ShutdownPhase::Grace(closed),
                    ),
                }
            },
            ShutdownPhase::Grace(closed) => {
                if self.state() == State::Done {
                    self.finish_shutdown(closed);
                    return ShutdownStep::Finished;
                }
                if time_is_up {
                    return ShutdownStep::ForceKill {
                        slot: self.force_kill,
                        next: ShutdownPhase::Forced(closed),
                    };
                }
                let ticket: u64 = self.await_end();
                ShutdownStep::AwaitUntilDeadline { ticket, next: ShutdownPhase::Grace(closed) }
            },
            ShutdownPhase::Forced(closed) => {
                if self.state() == State::Done {
                    self.finish_shutdown(closed);
                    return ShutdownStep::Finished;
                }
                let ticket: u64 = self.await_end();
                ShutdownStep::Await { ticket, next: ShutdownPhase::Forced(closed) }
            },
        }
    }

    /// Starts to wait until the thread, which runs, is done.
    fn await_end(&mut self) -> (ticket: u64)
        requires
            old(self)@.lifecycle.issued < u64::MAX,
            old(self)@.lifecycle.current != State::Done,
        ensures
            ticket == old(self)@.lifecycle.issued,
            final(self)@ == (PhpThreadView {
                lifecycle: old(self)@.lifecycle.waiting_for(seq![State::Done]),
                ..old(self)@
            }),
    {
        let states = [State::Done];
        assert(states@ =~= seq![State::Done]);
        match self.lifecycle.wait_for(states.as_slice()) {
            Wait::Pending(ticket) => ticket,
            Wait::Reached => 0,
        }
    }

    /// The state that a thread's end comes to.
    pub open spec fn ended_state(current: State) -> State {
        match current {
            State::Rebooting => State::RebootReady,
            State::ForceRebooting => State::YieldingForReboot,
            _ => State::Done,
        }
    }

    /// Publishes that the interpreter's thread has ended, and lets the script's path go.
    pub fn on_thread_shutdown(&mut self)
        ensures
            final(self)@ == (PhpThreadView {
                lifecycle: old(self)@.lifecycle.published(
                    PhpThread::ended_state(old(self)@.lifecycle.current),
                ),
                script_path: None,
                ..old(self)@
            }),
    {
        self.release_script_path();
        let next = match self.lifecycle.get() {
            State::Rebooting => State::RebootReady,
            State::ForceRebooting => State::YieldingForReboot,
            _ => State::Done,
        };
        self.lifecycle.set(next);
    }
}

/// A change of handlers is a meeting that neither side misses. Whoever asked for it is woken when
/// the thread hands over, the thread is woken when the new handler is in place, and neither is
/// woken before.
pub proof fn lemma_handler_change_meets(l: Lifecycle)
    requires
        l.well_formed(),
        l.issued + 2 <= u64::MAX,
    ensures
        ({
            let asked = l.published(State::TransitionRequested).waiting_for(
                seq![State::TransitionInProgress],
            );
            let handed_over = asked.published(State::TransitionInProgress).waiting_for(
                seq![State::TransitionComplete],
            );
            let complete = handed_over.published(State::TransitionComplete);
            let asker = l.issued as u64;
            let thread = (l.issued + 1) as u64;
            &&& state::pending(asked.waiters, asker)
            &&& !state::pending(asked.published(State::TransitionInProgress).waiters, asker)
            &&& state::pending(handed_over.waiters, thread)
            &&& !state::pending(complete.waiters, thread)
            &&& complete.well_formed()
        }),
{
    let requested = l.published(State::TransitionRequested);
    let for_hand_over = seq![State::TransitionInProgress];
    let for_handler = seq![State::TransitionComplete];
    state::lemma_operations_keep_well_formed(l, State::TransitionRequested, for_hand_over, 0);
    state::lemma_operations_keep_well_formed(
        requested,
        State::TransitionInProgress,
        for_hand_over,
        0,
    );
    assert(for_hand_over[0] == State::TransitionInProgress);
    assert(for_handler[0] == State::TransitionComplete);
    state::lemma_ticket_pending_until_published(
        requested,
        for_hand_over,
        State::TransitionInProgress,
    );
    let asked = requested.waiting_for(for_hand_over);
    state::lemma_operations_keep_well_formed(asked, State::TransitionInProgress, for_handler, 0);
    let met = asked.published(State::TransitionInProgress);
    state::lemma_operations_keep_well_formed(met, State::TransitionComplete, for_handler, 0);
    state::lemma_ticket_pending_until_published(met, for_handler, State::TransitionComplete);
    state::lemma_operations_keep_well_formed(
        met.waiting_for(for_handler),
        State::TransitionComplete,
        for_handler,
        0,
    );
}

proof fn lemma_parked_ticket(
    idle: PhpThreadView,
    now: UnixTime,
    ticket: u64,
    parked: PhpThreadView,
    published: State,
)
    requires
        idle.lifecycle.well_formed(),
        idle.lifecycle.issued + 2 < u64::MAX,
        stepped(
            idle,
            thread_inactive::inactive_decision(idle.lifecycle.current),
            now,
            Progress::Parked(Wait::Pending(ticket)),
            parked,
        ),
        thread_inactive::inactive_decision(published) is HandOver
            || thread_inactive::inactive_decision(published) is Stop,
    ensures
        parked.lifecycle.current == State::Inactive,
        parked.lifecycle.well_formed(),
        parked.lifecycle.issued == idle.lifecycle.issued + 1,
        ticket == idle.lifecycle.issued,
        state::pending(parked.lifecycle.waiters, ticket),
        !state::pending(parked.lifecycle.published(published).waiters, ticket),
{
    let l = idle.lifecycle.published(State::Inactive).marked(now.millis_since_epoch());
    let until = thread_inactive::rest_enders();
    thread_inactive::lemma_rest_ends(idle.lifecycle.current, published);
    thread_inactive::lemma_inactive_settles(idle.lifecycle.current);
    state::lemma_operations_keep_well_formed(idle.lifecycle, State::Inactive, until, 0);
    state::lemma_operations_keep_well_formed(l, published, until, 0);
    state::lemma_ticket_pending_until_published(l, until, published);
}

/// An idle thread that is asked to let another handler take over does so: the wait in which it is
/// parked ends, its next step is to hand over, and whoever asked is woken by that and not before.
pub proof fn lemma_idle_thread_hands_over(
    idle: PhpThreadView,
    now: UnixTime,
    ticket: u64,
    parked: PhpThreadView,
    change: HandlerChange,
    asked: PhpThreadView,
    r: Progress,
    handed: PhpThreadView,
)
    requires
        idle.lifecycle.well_formed(),
        idle.lifecycle.issued + 2 < u64::MAX,
        stepped(
            idle,
            thread_inactive::inactive_decision(idle.lifecycle.current),
            now,
            Progress::Parked(Wait::Pending(ticket)),
            parked,
        ),
        parked.drain.is_open(),
        handler_change_begun(parked, change, asked),
        stepped(
            asked,
            thread_inactive::inactive_decision(asked.lifecycle.current),
            now,
            r,
            handed,
        ),
    ensures
        asked.lifecycle.well_formed(),
        state::pending(parked.lifecycle.waiters, ticket),
        !state::pending(asked.lifecycle.waiters, ticket),
        r is HandOver,
        handed.lifecycle.current == State::TransitionInProgress,
        change matches HandlerChange::Started { ticket: asker, .. } && state::pending(
            asked.lifecycle.waiters,
            asker,
        ) && !state::pending(handed.lifecycle.waiters, asker),
{
    lemma_parked_ticket(idle, now, ticket, parked, State::TransitionRequested);
    let l = parked.lifecycle.published(State::TransitionRequested);
    let answer = seq![State::TransitionInProgress];
    let done = seq![State::TransitionComplete];
    assert(answer[0] == State::TransitionInProgress);
    assert(done[0] == State::TransitionComplete);
    state::lemma_operations_keep_well_formed(
        parked.lifecycle,
        State::TransitionRequested,
        answer,
        0,
    );
    state::lemma_ticket_pending_until_published(l, answer, State::TransitionInProgress);
    state::lemma_operations_keep_well_formed(l, State::TransitionInProgress, answer, 0);
    let waiters = asked.lifecycle.waiters;
    assert(waiters == l.waiters.push((l.issued as u64, answer)));
    if state::pending(waiters, ticket) {
        let i = choose|i: int| 0 <= i < waiters.len() && (#[trigger] waiters[i]).0 == ticket;
        assert(l.waiters[i].0 == ticket);
    }
    let asker = l.issued as u64;
    let met = asked.lifecycle.published(State::TransitionInProgress);
    let last = handed.lifecycle.waiters;
    assert(last == met.waiters.push((met.issued as u64, done)));
    if state::pending(last, asker) {
        let i = choose|i: int| 0 <= i < last.len() && (#[trigger] last[i]).0 == asker;
        assert(i < met.waiters.len());
        assert(met.waiters[i].0 == asker);
    }
}

/// An idle thread that is told to end does so: the wait in which it is parked ends, and its next
/// step ends its loop.
pub proof fn lemma_idle_thread_ends(
    idle: PhpThreadView,
    now: UnixTime,
    ticket: u64,
    parked: PhpThreadView,
    start: ShutdownStart,
    told: PhpThreadView,
    r: Progress,
    after: PhpThreadView,
)
    requires
        idle.lifecycle.well_formed(),
        idle.lifecycle.issued + 2 < u64::MAX,
        stepped(
            idle,
            thread_inactive::inactive_decision(idle.lifecycle.current),
            now,
            Progress::Parked(Wait::Pending(ticket)),
            parked,
        ),
        parked.drain.is_open(),
        shutdown_begun(parked, start, told),
        stepped(told, thread_inactive::inactive_decision(told.lifecycle.current), now, r, after),
    ensures
        start is Started,
        state::pending(parked.lifecycle.waiters, ticket),
        !state::pending(told.lifecycle.waiters, ticket),
        r is Stop,
        PhpThread::ended_state(after.lifecycle.current) == State::Done,
{
    lemma_parked_ticket(idle, now, ticket, parked, State::ShuttingDown);
}

/// A thread that is booted comes to rest: its first step parks it inactive, which is noted as
/// waiting since then, and whoever booted it and waits for that is woken.
pub proof fn lemma_boot_comes_to_rest(
    reserved: PhpThreadView,
    booting: PhpThreadView,
    now: UnixTime,
    r: Progress,
    idle: PhpThreadView,
)
    requires
        reserved.lifecycle.well_formed(),
        reserved.lifecycle.issued + 2 < u64::MAX,
        boot_begun(reserved, booting),
        ({
            let awaited = PhpThreadView {
                lifecycle: booting.lifecycle.waiting_for(seq![State::Inactive]),
                ..booting
            };
            stepped(awaited, booting.handler->0.decides(booting.lifecycle.current), now, r, idle)
        }),
    ensures
        booting.lifecycle.wait(seq![State::Inactive]) == Wait::Pending(
            booting.lifecycle.issued as u64,
        ),
        r is Parked,
        idle.lifecycle.current == State::Inactive,
        idle.lifecycle.waiting_since == now.millis_since_epoch(),
        !state::pending(idle.lifecycle.waiters, booting.lifecycle.issued as u64),
{
    let inactive = seq![State::Inactive];
    assert(inactive[0] == State::Inactive);
    let until = thread_inactive::rest_enders();
    state::lemma_operations_keep_well_formed(reserved.lifecycle, State::Booting, inactive, 0);
    let l = booting.lifecycle;
    state::lemma_ticket_pending_until_published(l, inactive, State::Inactive);
    thread_inactive::lemma_inactive_settles(State::Booting);
    let ticket = l.issued as u64;
    let rested = l.waiting_for(inactive).published(State::Inactive);
    let last = idle.lifecycle.waiters;
    assert(last == rested.waiters.push((rested.issued as u64, until)));
    if state::pending(last, ticket) {
        let i = choose|i: int| 0 <= i < last.len() && (#[trigger] last[i]).0 == ticket;
        assert(i < rested.waiters.len());
        assert(rested.waiters[i].0 == ticket);
    }
}

/// A thread that has ended is done, or is ready to be started again where it was to reboot; one
/// that was told to end is done, and once that is taken note of it can be booted afresh.
pub proof fn lemma_end_of_life(
    done: PhpThreadView,
    closed: ClosedDrainGeneration,
    after: PhpThreadView,
)
    requires
        shutdown_finished(done, closed.generation, after),
        closed.generation == done.drain.tag(),
        !done.drain.is_open(),
    ensures
        after.lifecycle.current == State::Reserved,
        after.drain.is_open(),
        after.drain.tag() != done.drain.tag(),
        forall|s: State|
            s != State::Rebooting && s != State::ForceRebooting ==> #[trigger] PhpThread::ended_state(
                s,
            ) == State::Done,
        PhpThread::ended_state(State::Rebooting) == State::RebootReady,
        PhpThread::ended_state(State::ForceRebooting) == State::YieldingForReboot,
{
}

/// A wish to change a thread's handler, or to end the thread, reaches it wherever it rests: both
/// are granted in exactly the two states in which a thread rests, and then its state says so and
/// the generation that it may wait on is over. A thread that is gone or going is left alone, and
/// one between two states is to be asked again.
pub proof fn lemma_wishes_reach_the_thread(
    before: PhpThreadView,
    change: HandlerChange,
    asked: PhpThreadView,
    start: ShutdownStart,
    told: PhpThreadView,
)
    requires
        handler_change_begun(before, change, asked),
        shutdown_begun(before, start, told),
    ensures
        ({
            let s = before.lifecycle.current;
            let rests = s == State::Ready || s == State::Inactive;
            let over = s == State::Reserved || s == State::ShuttingDown || s == State::Done;
            &&& rests && before.drain.is_open() <==> change is Started
            &&& rests && before.drain.is_open() <==> start is Started
            &&& rests ==> asked.lifecycle.current == State::TransitionRequested
                && !asked.drain.is_open() && asked.drain.channel() == before.drain.channel()
            &&& rests ==> told.lifecycle.current == State::ShuttingDown && !told.drain.is_open()
                && told.drain.channel() == before.drain.channel()
            &&& over <==> change is Rejected
            &&& over <==> start is NothingToDo
            &&& !rests && !over <==> change is Later
            &&& !rests && !over <==> start is Later
            &&& !rests ==> asked.lifecycle.current == s
        }),
{
}

/// A step does what was decided and nothing more: it publishes what is to be published, leaves
/// the state alone where the loop ends or prepares, and where it hands over the thread says so
/// and waits until the new handler is in place.
pub proof fn lemma_step_does_what_was_decided(
    before: PhpThreadView,
    decision: Decision,
    now: UnixTime,
    r: Progress,
    after: PhpThreadView,
)
    requires
        before.lifecycle.well_formed(),
        before.lifecycle.issued < u64::MAX,
        stepped(before, decision, now, r, after),
    ensures
        after.index == before.index,
        after.handler == before.handler,
        after.drain == before.drain,
        after.script_path == before.script_path,
        after.force_kill == before.force_kill,
        decision matches Decision::Publish(state) ==> r is Again && after.lifecycle.current == state,
        decision is Prepare ==> r is Prepare && after == before,
        decision matches Decision::Stop { leave } ==> after == before && r == (Progress::Stop {
            leave,
        }),
        decision matches Decision::HandOver { leave } ==> (r matches Progress::HandOver {
            leave: left,
            ticket,
        } && left == leave && after.lifecycle.current == State::TransitionInProgress
            && state::pending(after.lifecycle.waiters, ticket) && !state::pending(
            after.lifecycle.published(State::TransitionComplete).waiters,
            ticket,
        )),
        decision matches Decision::Park { state, until } ==> after.lifecycle.current == state
            && after.lifecycle.waiting_since == now.millis_since_epoch() && (r
            matches Progress::Parked(wait) && (wait is Reached) == until.contains(state)),
        decision is AwaitRequest ==> r is AwaitRequest && after.lifecycle.current
            == before.lifecycle.current && after.lifecycle.waiting_since
            == now.millis_since_epoch(),
        decision matches Decision::AwaitKnown(states) ==> after.lifecycle.current
            == before.lifecycle.current && (r matches Progress::Unexpected { state, wait } && state
            == before.lifecycle.current && (wait is Reached) == states.contains(state)),
{
    let done = seq![State::TransitionComplete];
    assert(done[0] == State::TransitionComplete);
    let l = before.lifecycle.published(State::TransitionInProgress);
    state::lemma_operations_keep_well_formed(
        before.lifecycle,
        State::TransitionInProgress,
        done,
        0,
    );
    state::lemma_ticket_pending_until_published(l, done, State::TransitionComplete);
}

/// A thread that is being shut down has its time: while it runs and there is time it is waited
/// for, when the time is up it is interrupted where it can be, and then it is waited for until it
/// has ended.
pub proof fn lemma_shutdown_has_its_time(
    before: PhpThreadView,
    closed: ClosedDrainGeneration,
    time_is_up: bool,
    r: ShutdownStep,
    after: PhpThreadView,
)
    requires
        shutdown_stepped(before, ShutdownPhase::Grace(closed), time_is_up, r, after),
        before.lifecycle.current != State::Done,
        before.lifecycle.well_formed(),
        before.lifecycle.issued < u64::MAX,
    ensures
        !time_is_up ==> (r matches ShutdownStep::AwaitUntilDeadline { ticket, next } && next
            == ShutdownPhase::Grace(closed) && state::pending(after.lifecycle.waiters, ticket)
            && !state::pending(after.lifecycle.published(State::Done).waiters, ticket)),
        time_is_up ==> (r matches ShutdownStep::ForceKill { slot, next } && slot
            == before.force_kill && next == ShutdownPhase::Forced(closed)),
{
    let done = seq![State::Done];
    assert(done[0] == State::Done);
    state::lemma_ticket_pending_until_published(before.lifecycle, done, State::Done);
}

/// A thread that was never used is reserved, waited for by nobody, and free to be booted.
pub proof fn lemma_fresh_thread(t: PhpThreadView, index: int)
    requires
        is_fresh(t, index),
    ensures
        t.index == index,
        t.lifecycle.current == State::Reserved,
        t.lifecycle.waiters.len() == 0,
        t.lifecycle.waiting_since == 0,
        t.lifecycle.well_formed(),
        t.handler is None,
        t.drain.is_open(),
        t.script_path is None,
        t.force_kill is None,
{
}

} // verus!
