//! PHP threads that run one script for each request, and how requests reach them.
//!
//! A request is first offered to each thread on a channel of its own, which takes it only from
//! a sender that meets a thread waiting there at that moment. A request that no thread takes so
//! queues for all of them.
use crossbeam_channel::{Receiver, Sender};
use vstd::prelude::*;

use crate::context::{ContextSlots, RequestContext};
use crate::drain::{ClosedDrainGeneration, DrainChannel, DrainReceiver};
use crate::state;
use crate::state::{State, UnixTime, Wait};
use crate::thread;
use crate::thread::{
    Decision, Delivery, HandlerAction, HandlerChange, PhpThread, PhpThreadView, Progress,
    ShutdownStart, ThreadError, ThreadHandler,
};
use crate::thread_inactive;

verus! {

/// The channel of requests that a sender belongs to.
pub uninterp spec fn request_sending_channel(sender: Sender<RequestContext>) -> int;

/// The channel of requests that a receiver belongs to.
pub uninterp spec fn request_receiving_channel(receiver: Receiver<RequestContext>) -> int;

/// `crossbeam_channel::bounded` with no room opens a channel on which a sender has to meet a
/// receiver, and hands out its two ends.
#[verifier::external_body]
fn open_meeting_point() -> (r: (Sender<RequestContext>, Receiver<RequestContext>))
    ensures
        request_sending_channel(r.0) == request_receiving_channel(r.1),
{
    crossbeam_channel::bounded(0)
}

/// The handler of a thread that runs one script for each request.
#[derive(Debug)]
pub struct RegularThread;

/// The states of which a regular thread knows what to make.
pub open spec fn regular_states() -> Seq<State> {
    seq![
        State::TransitionRequested,
        State::TransitionComplete,
        State::Ready,
        State::Rebooting,
        State::ForceRebooting,
        State::RebootReady,
        State::ShuttingDown,
    ]
}

/// What a regular thread does in a state. A thread that reboots stays among those that take
/// requests. In a state that is none of its own it stays where it is: an end would leave the
/// thread to nobody.
pub open spec fn regular_decision(state: State) -> Decision {
    match state {
        State::TransitionRequested => Decision::HandOver { leave: true },
        State::TransitionComplete => Decision::Prepare,
        State::Ready => Decision::AwaitRequest,
        State::Rebooting | State::ForceRebooting => Decision::Stop { leave: false },
        State::RebootReady => Decision::Publish(State::Ready),
        State::ShuttingDown => Decision::Stop { leave: true },
        _ => Decision::AwaitKnown(regular_states()),
    }
}

impl ThreadHandler for RegularThread {
    open spec fn title(&self) -> Seq<char> {
        "Regular PHP Thread"@
    }

    open spec fn label(&self) -> Seq<char> {
        "regular PHP thread"@
    }

    open spec fn decides(&self, state: State) -> Decision {
        regular_decision(state)
    }

    open spec fn ends_requests(&self) -> bool {
        true
    }

    fn name(&self) -> (r: &str) {
        "Regular PHP Thread"
    }

    fn log_name(&self) -> (r: &str) {
        "regular PHP thread"
    }

    fn before_script_execution(&self, state: State) -> (r: HandlerAction) {
        match state {
            State::TransitionRequested => HandlerAction::HandOver { leave: true },
            State::TransitionComplete => HandlerAction::Prepare,
            State::Ready => HandlerAction::AwaitRequest,
            State::Rebooting | State::ForceRebooting => HandlerAction::Stop { leave: false },
            State::RebootReady => HandlerAction::Publish(State::Ready),
            State::ShuttingDown => HandlerAction::Stop { leave: true },
            _ => {
                let states = vec![
                    State::TransitionRequested,
                    State::TransitionComplete,
                    State::Ready,
                    State::Rebooting,
                    State::ForceRebooting,
                    State::RebootReady,
                    State::ShuttingDown,
                ];
                assert(states@ =~= regular_states());
                HandlerAction::AwaitKnown(states)
            },
        }
    }

    fn after_script_execution(
        &self,
        slots: &mut ContextSlots,
        thread_index: usize,
        _exit_status: i32,
    ) -> (r: Option<RequestContext>) {
        match slots.take(thread_index) {
            Some(mut ctx) => {
                ctx.close_context();
                Some(ctx)
            },
            None => None,
        }
    }
}

/// Whether a decision takes the thread away from those that take requests.
pub open spec fn leaves(decision: Decision) -> bool {
    match decision {
        Decision::HandOver { leave } => leave,
        Decision::Stop { leave } => leave,
        _ => false,
    }
}

/// A regular thread takes requests only while it is ready, and never spins: in every state it
/// ends, hands over or waits, or goes through one more state to where it waits for requests. It
/// leaves those that take requests exactly where it hands over or shuts down.
pub proof fn lemma_regular_settles(state: State)
    ensures
        (regular_decision(state) is AwaitRequest) == (state == State::Ready),
        regular_decision(state) matches Decision::Publish(next) ==> regular_decision(
            next,
        ) is AwaitRequest,
        regular_decision(state) is Prepare ==> regular_decision(State::Ready) is AwaitRequest,
        leaves(regular_decision(state)) == (state == State::TransitionRequested || state
            == State::ShuttingDown),
        regular_decision(state) matches Decision::AwaitKnown(states) ==> !states.contains(state),
        (regular_decision(state) is AwaitKnown) == !regular_states().contains(state),
{
    let known = regular_states();
    assert(known[0] == State::TransitionRequested);
    assert(known[1] == State::TransitionComplete);
    assert(known[2] == State::Ready);
    assert(known[3] == State::Rebooting);
    assert(known[4] == State::ForceRebooting);
    assert(known[5] == State::RebootReady);
    assert(known[6] == State::ShuttingDown);
}

/// A thread that takes requests, and the channel on which they are offered to it.
pub struct RegularThreadEntry {
    pub thread_index: usize,
    pub sender: Sender<RequestContext>,
}

/// `Sender::try_send` hands a request over on a thread's channel if it can do so at once, and
/// gives the request back otherwise. Whether it can depends on who waits at that moment, and is
/// left unsaid.
#[verifier::external_body]
fn offer(sender: &Sender<RequestContext>, work: RequestContext) -> (r: Result<(), RequestContext>)
    ensures
        r matches Err(back) ==> back == work,
{
    sender.try_send(work).map_err(|refused| refused.into_inner())
}

/// Whether an offer of a request to a thread can end with the thread taking it. Only an offer
/// that did so shows that it can.
pub closed spec fn taken(entry: RegularThreadEntry, work: RequestContext) -> bool {
    call_ensures(offer, (&entry.sender, work), Ok::<(), RequestContext>(()))
}

/// Whether an offer of a request to a thread can end with the request coming back. Only an
/// offer that did so shows that it can.
pub closed spec fn refused(entry: RegularThreadEntry, work: RequestContext) -> bool {
    call_ensures(offer, (&entry.sender, work), Err::<(), RequestContext>(work))
}

/// Whether a request came back from each of the first so many threads.
pub open spec fn refused_by_first(
    entries: Seq<RegularThreadEntry>,
    count: int,
    work: RequestContext,
) -> bool {
    forall|i: int| 0 <= i < count ==> refused(#[trigger] entries[i], work)
}

/// Whether a request was taken by a thread of this number, and came back from each before it.
pub open spec fn taken_in_turn(
    entries: Seq<RegularThreadEntry>,
    thread_index: usize,
    work: RequestContext,
) -> bool {
    exists|i: int|
        0 <= i < entries.len() && (#[trigger] entries[i]).thread_index == thread_index && taken(
            entries[i],
            work,
        ) && refused_by_first(entries, i, work)
}

/// What became of a request that was to be handed over.
pub enum Dispatch {
    /// This thread has it.
    Delivered(usize),
    /// No thread took it: it is to queue.
    Queue(RequestContext),
}

/// What is to follow an offer of a request to a thread.
pub enum Offered {
    /// This thread has the request.
    Delivered(usize),
    /// The request is to be offered to the thread at this place.
    Next(usize, RequestContext),
    /// No thread took the request: it is to queue.
    Queue(RequestContext),
}

/// The threads that take requests, in the order in which they came.
pub struct RegularThreads {
    pub entries: Vec<RegularThreadEntry>,
}

/// The threads' numbers and channels.
pub open spec fn entry_views(entries: Seq<RegularThreadEntry>) -> Seq<(usize, int)> {
    entries.map_values(
        |e: RegularThreadEntry| (e.thread_index, request_sending_channel(e.sender)),
    )
}

/// The entries but for those of a thread.
pub open spec fn without_thread(entries: Seq<(usize, int)>, thread_index: usize) -> Seq<(usize, int)>
    decreases entries.len(),
{
    if entries.len() == 0 {
        seq![]
    } else {
        let before = without_thread(entries.drop_last(), thread_index);
        if entries.last().0 == thread_index {
            before
        } else {
            before.push(entries.last())
        }
    }
}

impl View for RegularThreads {
    type V = Seq<(usize, int)>;

    open spec fn view(&self) -> Seq<(usize, int)> {
        entry_views(self.entries@)
    }
}

impl RegularThreads {
    /// No threads.
    pub fn new() -> (r: Self)
        ensures
            r@ == Seq::<(usize, int)>::empty(),
    {
        let r = RegularThreads { entries: Vec::new() };
        assert(r@ =~= seq![]);
        r
    }

    /// Adds a thread.
    pub fn attach_regular_thread(&mut self, thread_index: usize, sender: Sender<RequestContext>)
        ensures
            final(self)@ == old(self)@.push((thread_index, request_sending_channel(sender))),
    {
        let ghost channel = request_sending_channel(sender);
        self.entries.push(RegularThreadEntry { thread_index, sender });
        assert(self@ =~= old(self)@.push((thread_index, channel)));
    }

    /// Takes a thread away.
    pub fn detach_regular_thread(&mut self, thread_index: usize)
        ensures
            final(self)@ == without_thread(old(self)@, thread_index),
    {
        let ghost before = self@;
        let mut i: usize = 0;
        let mut n: usize = self.entries.len();
        proof {
            assert(before.skip(0) =~= before);
            assert(self@ =~= without_thread(before.take(0), thread_index) + before.skip(0));
        }
        while i < n
            invariant
                n == self.entries@.len(),
                i <= n,
                n - i <= before.len(),
                self@ == without_thread(before.take(before.len() - (n - i)), thread_index)
                    + before.skip(before.len() - (n - i)),
                without_thread(before.take(before.len() - (n - i)), thread_index).len() == i,
            decreases n - i,
        {
            let ghost at = before.len() - (n - i);
            proof {
                assert(before.take(at + 1).drop_last() =~= before.take(at));
                assert(before.take(at + 1).last() == before[at]);
                assert(before.skip(at) =~= seq![before[at]] + before.skip(at + 1));
                assert(self@[i as int] == before[at]);
                assert(self.entries@[i as int].thread_index == before[at].0);
            }
            if self.entries[i].thread_index == thread_index {
                let ghost entries = self.entries@;
                self.entries.remove(i);
                n = n - 1;
                assert(self@ =~= entry_views(entries).remove(i as int));
                assert(self@ =~= without_thread(before.take(at + 1), thread_index) + before.skip(
                    at + 1,
                ));
            } else {
                i = i + 1;
                assert(self@ =~= without_thread(before.take(at + 1), thread_index) + before.skip(
                    at + 1,
                ));
            }
        }
        proof {
            assert(before.take(before.len() as int) =~= before);
            assert(self@ =~= without_thread(before, thread_index));
        }
    }

    /// Where a request goes first: to the thread that came first, or to the queue while others
    /// queue or where there is no thread.
    pub fn first_offer(&self, queued: i64, work: RequestContext) -> (r: Offered)
        ensures
            queued != 0 || self@.len() == 0 ==> r == Offered::Queue(work),
            queued == 0 && self@.len() > 0 ==> (r matches Offered::Next(at, back) && at == 0 && back
                == work),
    {
        if queued != 0 || self.entries.len() == 0 {
            Offered::Queue(work)
        } else {
            Offered::Next(0, work)
        }
    }

    /// Goes on behind an offer to the thread at a place: a thread took the request, or it was
    /// refused and goes to the thread behind, or to the queue behind the last one.
    pub fn offered(&self, at: usize, answer: Result<usize, RequestContext>) -> (r: Offered)
        requires
            at < self@.len(),
        ensures
            match answer {
                Ok(thread_index) => r == Offered::Delivered(thread_index),
                Err(work) => if at + 1 < self@.len() {
                    r matches Offered::Next(next, back) && next == at + 1 && back == work
                } else {
                    r == Offered::Queue(work)
                },
            },
    {
        match answer {
            Ok(thread_index) => Offered::Delivered(thread_index),
            Err(work) => {
                let last: usize = self.entries.len() - 1;
                if at < last {
                    Offered::Next(at + 1, work)
                } else {
                    Offered::Queue(work)
                }
            },
        }
    }

    /// Hands a request to a thread that waits for one, in the order in which the threads came.
    /// While others queue nobody is passed over: the request queues too. No request is lost: it
    /// is a thread's only where that thread took it, and one that no thread takes comes back as
    /// it was.
    pub fn handle_request_with_regular_php_threads(
        &self,
        queued: i64,
        work: RequestContext,
    ) -> (r: Dispatch)
        ensures
            match r {
                Dispatch::Delivered(thread_index) => queued == 0 && taken_in_turn(
                    self.entries@,
                    thread_index,
                    work,
                ),
                Dispatch::Queue(back) => {
                    &&& back == work
                    &&& queued == 0 ==> refused_by_first(
                        self.entries@,
                        self.entries@.len() as int,
                        work,
                    )
                },
            },
            queued != 0 || self@.len() == 0 ==> r is Queue,
    {
        let mut next = self.first_offer(queued, work);
        loop
            invariant
                match next {
                    Offered::Delivered(thread_index) => queued == 0 && taken_in_turn(
                        self.entries@,
                        thread_index,
                        work,
                    ),
                    Offered::Next(at, back) => {
                        &&& queued == 0
                        &&& at < self.entries@.len()
                        &&& back == work
                        &&& refused_by_first(self.entries@, at as int, work)
                    },
                    Offered::Queue(back) => {
                        &&& back == work
                        &&& queued == 0 ==> refused_by_first(
                            self.entries@,
                            self.entries@.len() as int,
                            work,
                        )
                    },
                },
                queued != 0 || self@.len() == 0 ==> next is Queue,
            decreases
                match next {
                    Offered::Next(at, _) => self@.len() - at,
                    _ => 0,
                },
        {
            match next {
                Offered::Delivered(thread_index) => return Dispatch::Delivered(thread_index),
                Offered::Next(at, back) => {
                    let answer = match offer(&self.entries[at].sender, back) {
                        Ok(done) => {
                            assert(done == ());
                            assert(taken(self.entries@[at as int], work));
                            Ok(self.entries[at].thread_index)
                        },
                        Err(back) => {
                            assert(refused(self.entries@[at as int], work));
                            Err(back)
                        },
                    };
                    next = self.offered(at, answer);
                },
                Offered::Queue(back) => return Dispatch::Queue(back),
            }
        }
    }
}

/// A thread that was taken away takes no request any more, and no other is affected.
pub proof fn lemma_detached_is_gone(entries: Seq<(usize, int)>, thread_index: usize)
    ensures
        forall|i: int|
            0 <= i < without_thread(entries, thread_index).len() ==> (#[trigger] without_thread(
                entries,
                thread_index,
            )[i]).0 != thread_index,
        forall|i: int|
            0 <= i < entries.len() && (#[trigger] entries[i]).0 != thread_index ==> without_thread(
                entries,
                thread_index,
            ).contains(entries[i]),
    decreases entries.len(),
{
    if entries.len() > 0 {
        let front = entries.drop_last();
        lemma_detached_is_gone(front, thread_index);
        let before = without_thread(front, thread_index);
        let rest = without_thread(entries, thread_index);
        assert forall|i: int| 0 <= i < rest.len() implies (#[trigger] rest[i]).0 != thread_index by {
            if i < before.len() {
                assert(rest[i] == before[i]);
            }
        }
        assert forall|i: int|
            0 <= i < entries.len() && (#[trigger] entries[i]).0 != thread_index implies rest.contains(
            entries[i],
        ) by {
            if i < front.len() {
                assert(front[i] == entries[i]);
                let k = choose|k: int| 0 <= k < before.len() && before[k] == front[i];
                assert(rest[k] == entries[i]);
            } else {
                assert(rest[rest.len() - 1] == entries[i]);
            }
        }
    }
}

/// Gives a thread that waits for its next handler the one for plain requests, adds it to those
/// that take requests, and gives the end of its channel at which it is to wait.
pub fn convert_to_regular_thread(
    thread: &mut PhpThread,
    closed: ClosedDrainGeneration,
    threads: &mut RegularThreads,
) -> (own: Receiver<RequestContext>)
    ensures
        final(threads)@ == old(threads)@.push(
            (old(thread)@.index, request_receiving_channel(own)),
        ),
        final(thread)@ == (PhpThreadView {
            lifecycle: old(thread)@.lifecycle.published(State::TransitionComplete),
            handler: final(thread)@.handler,
            drain: final(thread)@.drain,
            ..old(thread)@
        }),
        final(thread)@.handler matches Some(handler) && handler.title() == "Regular PHP Thread"@
            && handler.label() == "regular PHP thread"@ && handler.ends_requests() && forall|state: State| #[trigger]
            handler.decides(state) == regular_decision(state),
        closed.generation == old(thread)@.drain.tag() && !old(thread)@.drain.is_open()
            ==> DrainChannel::is_next(old(thread)@.drain, final(thread)@.drain),
        !(closed.generation == old(thread)@.drain.tag() && !old(thread)@.drain.is_open()) ==> final(thread)@.drain
            == old(thread)@.drain,
{
    let (sender, own) = open_meeting_point();
    thread.complete_set_handler(Box::new(RegularThread), closed);
    threads.attach_regular_thread(thread.index(), sender);
    own
}

/// A thread for plain requests does as it is told: it prepares itself once it has taken over,
/// waits for requests once it is ready, hands over when that is asked for, ends when it is to
/// end or to reboot, and is ready again behind a reboot. Any other state is none of its own, and
/// then exactly the states that are end its wait.
pub proof fn lemma_regular_thread_obeys(state: State)
    ensures
        (regular_decision(state) is Prepare) == (state == State::TransitionComplete),
        (regular_decision(state) is AwaitRequest) == (state == State::Ready),
        (regular_decision(state) is HandOver) == (state == State::TransitionRequested),
        (regular_decision(state) is Stop) == (state == State::ShuttingDown || state
            == State::Rebooting || state == State::ForceRebooting),
        regular_decision(State::RebootReady) == Decision::Publish(State::Ready),
        regular_decision(state) matches Decision::AwaitKnown(states) ==> forall|s: State|
            states.contains(s) == !(#[trigger] regular_decision(s) is AwaitKnown),
{
    assert forall|s: State| regular_states().contains(s) == !(#[trigger] regular_decision(
        s,
    ) is AwaitKnown) by {
        lemma_regular_settles(s);
    }
}

/// A thread that waits for requests is reached by a wish to change its handler or to end it: the
/// generation that it waits on is over, and its next step is to hand over, or to end, and to
/// take no more requests.
pub proof fn lemma_waiting_thread_is_reached(
    ready: PhpThreadView,
    now: UnixTime,
    receiver: DrainReceiver,
    waiting: PhpThreadView,
    change: HandlerChange,
    asked: PhpThreadView,
    start: ShutdownStart,
    told: PhpThreadView,
)
    requires
        thread::stepped(
            ready,
            regular_decision(ready.lifecycle.current),
            now,
            Progress::AwaitRequest(receiver),
            waiting,
        ),
        waiting.drain.is_open(),
        thread::handler_change_begun(waiting, change, asked),
        thread::shutdown_begun(waiting, start, told),
    ensures
        waiting.lifecycle.waiting_since == now.millis_since_epoch(),
        receiver.channel() == asked.drain.channel() && !asked.drain.is_open(),
        receiver.channel() == told.drain.channel() && !told.drain.is_open(),
        change is Started,
        start is Started,
        regular_decision(asked.lifecycle.current) == (Decision::HandOver { leave: true }),
        regular_decision(told.lifecycle.current) == (Decision::Stop { leave: true }),
{
}

/// A thread that has handed over to the handler for plain requests comes to wait for them: it
/// prepares itself, and once that is done it waits on the generation that is open.
pub proof fn lemma_new_thread_waits_for_requests(
    complete: PhpThreadView,
    now: UnixTime,
    r: Progress,
    after: PhpThreadView,
    r2: Progress,
    waiting: PhpThreadView,
)
    requires
        complete.lifecycle.current == State::TransitionComplete,
        thread::stepped(complete, regular_decision(complete.lifecycle.current), now, r, after),
        ({
            let prepared = PhpThreadView {
                lifecycle: after.lifecycle.published(State::Ready),
                ..after
            };
            thread::stepped(
                prepared,
                regular_decision(prepared.lifecycle.current),
                now,
                r2,
                waiting,
            )
        }),
    ensures
        r is Prepare,
        r2 matches Progress::AwaitRequest(receiver) && receiver.channel()
            == complete.drain.channel() && receiver.tag() == complete.drain.tag(),
        waiting.lifecycle.current == State::Ready,
        waiting.drain == complete.drain,
{
}

/// Taking a thread away leaves the others, all of them and in the order in which they came.
pub proof fn lemma_detaching_keeps_the_order(entries: Seq<(usize, int)>, thread_index: usize)
    ensures
        without_thread(entries, thread_index) == entries.filter(
            |e: (usize, int)| e.0 != thread_index,
        ),
    decreases entries.len(),
{
    let others = |e: (usize, int)| e.0 != thread_index;
    reveal(Seq::filter);
    if entries.len() > 0 {
        lemma_detaching_keeps_the_order(entries.drop_last(), thread_index);
        if others(entries.last()) {
            assert(entries.filter(others) =~= entries.drop_last().filter(others).push(
                entries.last(),
            ));
        } else {
            assert(entries.filter(others) =~= entries.drop_last().filter(others));
        }
    } else {
        assert(entries.filter(others) =~= seq![]);
    }
}

/// A thread comes to serve. It is booted and comes to rest; asked to let the handler for plain
/// requests take over, it wakes and hands over; with the new handler in place it prepares itself
/// and waits for requests; and a request that reaches it there is its own, with its script to
/// run.
pub proof fn lemma_thread_comes_to_serve(
    t1: &mut PhpThread,
    booted: Result<(), ThreadError>,
    t2: &mut PhpThread,
    started: Result<Wait, ThreadError>,
    t3: &mut PhpThread,
    parked: Progress,
    t4: &mut PhpThread,
    change: HandlerChange,
    t5: &mut PhpThread,
    t6: &mut PhpThread,
    handed: Progress,
    t7: &mut PhpThread,
    threads: &mut RegularThreads,
    own: Receiver<RequestContext>,
    t8: &mut PhpThread,
    prepare: Progress,
    t9: &mut PhpThread,
    t10: &mut PhpThread,
    waits: Progress,
    t11: &mut PhpThread,
    slots: &mut ContextSlots,
    ctx: RequestContext,
    delivery: Delivery,
    now: UnixTime,
)
    requires
        thread::is_fresh(old(t1)@, old(t1)@.index as int),
        call_ensures(PhpThread::begin_boot, (t1,), booted),
        final(t1)@ == old(t2)@,
        call_ensures(PhpThread::finish_boot, (t2, true), started),
        final(t2)@ == old(t3)@,
        call_ensures(PhpThread::before_script_execution, (t3, now), parked),
        final(t3)@ == old(t4)@,
        call_ensures(PhpThread::begin_set_handler, (t4,), change),
        final(t4)@ == old(t5)@,
        call_ensures(PhpThread::resumed, (t5,), ()),
        final(t5)@ == old(t6)@,
        call_ensures(PhpThread::before_script_execution, (t6, now), handed),
        final(t6)@ == old(t7)@,
        change matches HandlerChange::Started { closed, .. } ==> call_ensures(
            convert_to_regular_thread,
            (t7, closed, threads),
            own,
        ),
        final(t7)@ == old(t8)@,
        call_ensures(PhpThread::before_script_execution, (t8, now), prepare),
        final(t8)@ == old(t9)@,
        call_ensures(PhpThread::prepared, (t9,), ()),
        final(t9)@ == old(t10)@,
        call_ensures(PhpThread::before_script_execution, (t10, now), waits),
        final(t10)@ == old(t11)@,
        call_ensures(PhpThread::delivered, (t11, slots, Some(ctx)), delivery),
    ensures
        booted is Ok,
        started matches Ok(Wait::Pending(booter)) && !state::pending(
            final(t3)@.lifecycle.waiters,
            booter,
        ),
        parked matches Progress::Parked(Wait::Pending(ticket)) && state::pending(
            final(t3)@.lifecycle.waiters,
            ticket,
        ) && !state::pending(final(t4)@.lifecycle.waiters, ticket),
        final(t3)@.lifecycle.current == State::Inactive,
        change matches HandlerChange::Started { ticket, .. } && state::pending(
            final(t4)@.lifecycle.waiters,
            ticket,
        ) && !state::pending(final(t6)@.lifecycle.waiters, ticket),
        handed matches Progress::HandOver { leave, ticket } && !leave && state::pending(
            final(t6)@.lifecycle.waiters,
            ticket,
        ) && !state::pending(final(t7)@.lifecycle.waiters, ticket),
        final(threads)@ == old(threads)@.push((old(t1)@.index, request_receiving_channel(own))),
        prepare is Prepare,
        waits matches Progress::AwaitRequest(receiver) && receiver.channel()
            == final(t10)@.drain.channel() && final(t10)@.drain.is_open(),
        final(t10)@.lifecycle.current == State::Ready,
        final(t10)@.lifecycle.waiting_since == now.millis_since_epoch(),
        final(t11)@.lifecycle.waiting_since == 0,
        ctx.script_filename@.len() > 0 ==> (delivery matches Delivery::Run(path) && path@
            == ctx.script_filename@.push(0) && final(slots).at(old(t1)@.index as int) == Some(ctx)),
{
    let v1 = old(t1)@;
    let v2 = old(t2)@;
    let v3 = old(t3)@;
    let v4 = old(t4)@;
    thread::lemma_fresh_thread(v1, v1.index as int);
    let inactive = seq![State::Inactive];
    assert(inactive[0] == State::Inactive);
    state::lemma_operations_keep_well_formed(v1.lifecycle, State::Booting, inactive, 0);
    state::lemma_operations_keep_well_formed(v2.lifecycle, State::Booting, inactive, 0);
    thread::lemma_boot_comes_to_rest(v1, v2, now, parked, v4);
    thread_inactive::lemma_inactive_settles(v3.lifecycle.current);
    assert(parked is Parked);
    let ticket = parked->Parked_0->Pending_0;
    assert(v3.lifecycle.current == State::Booting);
    let resumed = old(t6)@;
    assert(resumed.lifecycle == old(t5)@.lifecycle.marked(0));
    let handed_by_asked = PhpThreadView {
        lifecycle: final(t6)@.lifecycle.marked(old(t5)@.lifecycle.waiting_since),
        ..final(t6)@
    };
    thread::lemma_idle_thread_hands_over(
        v3,
        now,
        ticket,
        v4,
        change,
        old(t5)@,
        handed,
        handed_by_asked,
    );
    let done = seq![State::TransitionComplete];
    assert(done[0] == State::TransitionComplete);
    thread::lemma_step_does_what_was_decided(
        resumed,
        resumed.handler->0.decides(resumed.lifecycle.current),
        now,
        handed,
        final(t6)@,
    );
    lemma_new_thread_waits_for_requests(
        old(t8)@,
        now,
        prepare,
        final(t8)@,
        waits,
        final(t10)@,
    );
}

/// A thread that serves is ended and can be started again. Told to end, it learns of it where it
/// waits, ends its loop and takes no more requests; once the interpreter's thread is gone it is
/// done, then reserved with a generation that is open, and it can be booted afresh.
pub proof fn lemma_thread_ends_and_starts_again(
    t1: &mut PhpThread,
    waits: Progress,
    t2: &mut PhpThread,
    start: ShutdownStart,
    t3: &mut PhpThread,
    stop: Progress,
    t4: &mut PhpThread,
    t5: &mut PhpThread,
    t6: &mut PhpThread,
    again: Result<(), ThreadError>,
    now: UnixTime,
)
    requires
        old(t1)@.handler matches Some(handler) && forall|s: State| #[trigger]
            handler.decides(s) == regular_decision(s),
        old(t1)@.lifecycle.current == State::Ready,
        old(t1)@.drain.is_open(),
        call_ensures(PhpThread::before_script_execution, (t1, now), waits),
        final(t1)@ == old(t2)@,
        call_ensures(PhpThread::begin_shutdown, (t2,), start),
        final(t2)@ == old(t3)@,
        call_ensures(PhpThread::before_script_execution, (t3, now), stop),
        final(t3)@ == old(t4)@,
        call_ensures(PhpThread::on_thread_shutdown, (t4,), ()),
        final(t4)@ == old(t5)@,
        start matches ShutdownStart::Started(closed) ==> call_ensures(
            PhpThread::finish_shutdown,
            (t5, closed),
            (),
        ),
        final(t5)@ == old(t6)@,
        call_ensures(PhpThread::begin_boot, (t6,), again),
    ensures
        waits matches Progress::AwaitRequest(receiver) && receiver.channel()
            == final(t2)@.drain.channel(),
        !final(t2)@.drain.is_open(),
        start is Started,
        stop matches Progress::Stop { leave } && leave,
        final(t4)@.lifecycle.current == State::Done,
        final(t4)@.script_path is None,
        final(t5)@.lifecycle.current == State::Reserved,
        final(t5)@.drain.is_open(),
        again is Ok,
        final(t6)@.lifecycle.current == State::Booting,
{
}

/// A request goes to the thread that came first, unless others queue already or there is no
/// thread; what one thread refuses goes to the next, and behind the last one to the queue. It is
/// never changed on its way.
pub proof fn lemma_requests_go_round(
    threads: &RegularThreads,
    queued: i64,
    work: RequestContext,
    first: Offered,
    at: usize,
    answer: Result<usize, RequestContext>,
    next: Offered,
)
    requires
        call_ensures(RegularThreads::first_offer, (threads, queued, work), first),
        at < threads@.len(),
        call_ensures(RegularThreads::offered, (threads, at, answer), next),
    ensures
        queued != 0 ==> first == Offered::Queue(work),
        queued == 0 ==> (first matches Offered::Next(i, back) && i == 0 && back == work),
        answer matches Ok(taker) ==> next == Offered::Delivered(taker),
        answer matches Err(back) ==> at + 1 < threads@.len() ==> (next matches Offered::Next(
            i,
            same,
        ) && i == at + 1 && same == back),
        answer matches Err(back) ==> at + 1 == threads@.len() ==> next == Offered::Queue(back),
{
}

/// A thread joins those that take requests behind all others, and leaves them without a trace.
pub proof fn lemma_threads_join_and_leave(
    r1: &mut RegularThreads,
    thread_index: usize,
    sender: Sender<RequestContext>,
    r2: &mut RegularThreads,
)
    requires
        call_ensures(RegularThreads::attach_regular_thread, (r1, thread_index, sender), ()),
        final(r1)@ == old(r2)@,
        call_ensures(RegularThreads::detach_regular_thread, (r2, thread_index), ()),
    ensures
        final(r1)@ == old(r1)@.push((thread_index, request_sending_channel(sender))),
        final(r2)@ == old(r1)@.filter(|e: (usize, int)| e.0 != thread_index),
{
    let entry = (thread_index, request_sending_channel(sender));
    lemma_detaching_keeps_the_order(old(r1)@.push(entry), thread_index);
    reveal(Seq::filter);
    assert(old(r1)@.push(entry).drop_last() =~= old(r1)@);
}

/// That a thread took a request, or that it came back, is shown by an offer of it to that thread.
proof fn lemma_offers_show_it(entry: RegularThreadEntry, work: RequestContext)
    ensures
        taken(entry, work) == call_ensures(
            offer,
            (&entry.sender, work),
            Ok::<(), RequestContext>(()),
        ),
        refused(entry, work) == call_ensures(
            offer,
            (&entry.sender, work),
            Err::<(), RequestContext>(work),
        ),
{
}

/// A request that was handed over was taken by a thread of that number, once all that came before
/// it had refused; one that is to queue is the same as it came, and was refused by all unless
/// others queue.
pub proof fn lemma_requests_are_handed_over(
    threads: &RegularThreads,
    queued: i64,
    work: RequestContext,
    r: Dispatch,
)
    requires
        call_ensures(
            RegularThreads::handle_request_with_regular_php_threads,
            (threads, queued, work),
            r,
        ),
    ensures
        r matches Dispatch::Delivered(thread_index) ==> queued == 0 && exists|i: int|
            0 <= i < threads.entries@.len() && (#[trigger] threads.entries@[i]).thread_index
                == thread_index && taken(threads.entries@[i], work) && forall|k: int|
                0 <= k < i ==> refused(#[trigger] threads.entries@[k], work),
        r matches Dispatch::Queue(back) ==> back == work && (queued == 0 ==> forall|k: int|
            0 <= k < threads.entries@.len() ==> refused(#[trigger] threads.entries@[k], work)),
        queued != 0 ==> r is Queue,
{
    if let Dispatch::Delivered(thread_index) = r {
        let entries = threads.entries@;
        let i = choose|i: int|
            0 <= i < entries.len() && (#[trigger] entries[i]).thread_index == thread_index && taken(
                entries[i],
                work,
            ) && refused_by_first(entries, i, work);
        assert(threads.entries@[i].thread_index == thread_index);
    }
}

} // verus!
