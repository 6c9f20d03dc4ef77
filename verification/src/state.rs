//! The lifecycle state of a PHP thread, and who waits for which state.
//!
//! Nothing here blocks. Who waits holds a ticket, which is pending until a state that it waits
//! for is published; the owner of the state machine blocks and wakes by the tickets.
use vstd::prelude::*;

verus! {

/// A lifecycle state. Its number in this order is part of what callers may rely on.
#[derive(Clone, Copy, Debug, PartialEq, Eq, Hash, Structural)]
pub enum State {
    Reserved,
    Booting,
    BootRequested,
    ShuttingDown,
    Done,
    Inactive,
    Ready,
    TransitionRequested,
    TransitionInProgress,
    TransitionComplete,
    Rebooting,
    ForceRebooting,
    RebootReady,
    YieldingForReboot,
}

impl State {
    /// The name of a state in messages.
    pub open spec fn name_spec(self) -> Seq<char> {
        match self {
            State::Reserved => "reserved"@,
            State::Booting => "booting"@,
            State::BootRequested => "boot requested"@,
            State::ShuttingDown => "shutting down"@,
            State::Done => "done"@,
            State::Inactive => "inactive"@,
            State::Ready => "ready"@,
            State::TransitionRequested => "transition requested"@,
            State::TransitionInProgress => "transition in progress"@,
            State::TransitionComplete => "transition complete"@,
            State::Rebooting => "rebooting"@,
            State::ForceRebooting => "rebooting (force)"@,
            State::RebootReady => "reboot ready"@,
            State::YieldingForReboot => "yielding for reboot"@,
        }
    }

    /// The name of a state in messages.
    pub fn name(self) -> (r: &'static str)
        ensures
            r@ == self.name_spec(),
    {
        match self {
            State::Reserved => "reserved",
            State::Booting => "booting",
            State::BootRequested => "boot requested",
            State::ShuttingDown => "shutting down",
            State::Done => "done",
            State::Inactive => "inactive",
            State::Ready => "ready",
            State::TransitionRequested => "transition requested",
            State::TransitionInProgress => "transition in progress",
            State::TransitionComplete => "transition complete",
            State::Rebooting => "rebooting",
            State::ForceRebooting => "rebooting (force)",
            State::RebootReady => "reboot ready",
            State::YieldingForReboot => "yielding for reboot",
        }
    }
}

/// Whether a state is among others.
pub fn is_among(state: State, states: &[State]) -> (r: bool)
    ensures
        r == states@.contains(state),
{
    let mut i: usize = 0;
    while i < states.len()
        invariant
            i <= states@.len(),
            forall|k: int| 0 <= k < i ==> states@[k] != state,
        decreases states@.len() - i,
    {
        if states[i] == state {
            return true;
        }
        i = i + 1;
    }
    false
}

/// A point in time, by its distance from the Unix epoch.
#[derive(Clone, Copy, Debug, PartialEq, Eq, Structural)]
pub struct UnixTime {
    /// Whether it lies before the epoch.
    pub before_epoch: bool,
    pub secs: u64,
    /// Below one second.
    pub nanos: u32,
}

impl UnixTime {
    /// Nanoseconds since the epoch.
    pub open spec fn nanos_since_epoch(self) -> int {
        let distance = self.secs * 1_000_000_000 + self.nanos;
        if self.before_epoch {
            -distance
        } else {
            distance
        }
    }

    /// Whole milliseconds since the epoch, rounded down: a time just before the epoch is -1.
    /// What 64 bits with a sign cannot hold is the nearest number that they can.
    pub open spec fn millis_since_epoch(self) -> int {
        clamped(self.nanos_since_epoch() / 1_000_000)
    }
}

/// A number, or the nearest one that 64 bits with a sign can hold.
pub open spec fn clamped(n: int) -> int {
    if n > i64::MAX {
        i64::MAX as int
    } else if n < i64::MIN {
        i64::MIN as int
    } else {
        n
    }
}

/// Whole milliseconds since the epoch, rounded down: a time just before the epoch is -1.
pub fn unix_millis(time: UnixTime) -> (r: i64)
    requires
        time.nanos < 1_000_000_000,
    ensures
        r == time.millis_since_epoch(),
{
    let millis: u128 = time.secs as u128 * 1000 + (time.nanos / 1_000_000) as u128;
    let part: bool = time.nanos % 1_000_000 != 0;
    if !time.before_epoch {
        if millis <= i64::MAX as u128 {
            millis as i64
        } else {
            i64::MAX
        }
    } else {
        let magnitude: u128 = if part {
            millis + 1
        } else {
            millis
        };
        if magnitude <= i64::MAX as u128 {
            -(magnitude as i64)
        } else {
            i64::MIN
        }
    }
}

/// One who waits: a ticket and the states of which any will do.
#[derive(Debug)]
pub struct StateSubscriber {
    pub ticket: u64,
    pub states: Vec<State>,
}

/// The tickets with their states.
pub open spec fn waiting(subscribers: Seq<StateSubscriber>) -> Seq<(u64, Seq<State>)> {
    subscribers.map_values(|s: StateSubscriber| (s.ticket, s.states@))
}

/// Those who go on waiting after a state was published.
pub open spec fn not_woken(subscribers: Seq<(u64, Seq<State>)>, published: State) -> Seq<
    (u64, Seq<State>),
>
    decreases subscribers.len(),
{
    if subscribers.len() == 0 {
        seq![]
    } else {
        let before = not_woken(subscribers.drop_last(), published);
        if subscribers.last().1.contains(published) {
            before
        } else {
            before.push(subscribers.last())
        }
    }
}

/// Those who go on waiting after one has given up.
pub open spec fn without_ticket(subscribers: Seq<(u64, Seq<State>)>, ticket: u64) -> Seq<
    (u64, Seq<State>),
>
    decreases subscribers.len(),
{
    if subscribers.len() == 0 {
        seq![]
    } else {
        let before = without_ticket(subscribers.drop_last(), ticket);
        if subscribers.last().0 == ticket {
            before
        } else {
            before.push(subscribers.last())
        }
    }
}

/// Whether a ticket is pending.
pub open spec fn pending(subscribers: Seq<(u64, Seq<State>)>, ticket: u64) -> bool {
    exists|i: int| 0 <= i < subscribers.len() && (#[trigger] subscribers[i]).0 == ticket
}

/// What became of a wish to wait.
#[derive(Debug, Clone, Copy, PartialEq, Eq, Structural)]
pub enum Wait {
    /// The state is already one of those wished for.
    Reached,
    /// Wait until this ticket is no longer pending.
    Pending(u64),
}

/// What became of a request for a state change.
#[derive(Debug, Clone, Copy, PartialEq, Eq, Structural)]
pub enum SafeChange {
    /// The thread is gone or about to go.
    Rejected,
    /// The state has been changed.
    Accepted,
    /// The thread is between two stable states: wait until this ticket is no longer pending and
    /// ask again.
    Later(u64),
}

/// What there is to know of a thread's state: the state, who waits for which states, how many
/// tickets have been given out, and since when the thread waits for work.
pub struct Lifecycle {
    pub current: State,
    pub waiters: Seq<(u64, Seq<State>)>,
    pub issued: nat,
    pub waiting_since: int,
}

impl Lifecycle {
    /// After a state was published: everyone who waited for it is woken.
    pub open spec fn published(self, next: State) -> Lifecycle {
        Lifecycle { current: next, waiters: not_woken(self.waiters, next), ..self }
    }

    /// What becomes of a wish to wait for any of `states`.
    pub open spec fn wait(self, states: Seq<State>) -> Wait {
        if states.contains(self.current) {
            Wait::Reached
        } else {
            Wait::Pending(self.issued as u64)
        }
    }

    /// After a wish to wait for any of `states`.
    pub open spec fn waiting_for(self, states: Seq<State>) -> Lifecycle {
        if states.contains(self.current) {
            self
        } else {
            Lifecycle {
                waiters: self.waiters.push((self.issued as u64, states)),
                issued: self.issued + 1,
                ..self
            }
        }
    }

    /// After one has given up waiting.
    pub open spec fn given_up(self, ticket: u64) -> Lifecycle {
        Lifecycle { waiters: without_ticket(self.waiters, ticket), ..self }
    }

    /// After the time since which the thread waits for work was noted.
    pub open spec fn marked(self, waiting_since: int) -> Lifecycle {
        Lifecycle { waiting_since, ..self }
    }

    /// Whether the tickets are told apart and nobody waits for the state that already is.
    pub open spec fn well_formed(self) -> bool {
        &&& self.issued <= u64::MAX
        &&& forall|i: int| 0 <= i < self.waiters.len() ==> (#[trigger] self.waiters[i]).0 < self.issued
        &&& forall|i: int, j: int|
            0 <= i < j < self.waiters.len() ==> (#[trigger] self.waiters[i]).0 != (
            #[trigger] self.waiters[j]).0
        &&& forall|i: int|
            0 <= i < self.waiters.len() ==> !(#[trigger] self.waiters[i]).1.contains(self.current)
    }
}

/// Publishing a state, starting to wait and giving up keep tickets apart, and leave nobody
/// waiting for the state that already is.
pub proof fn lemma_operations_keep_well_formed(
    v: Lifecycle,
    next: State,
    states: Seq<State>,
    ticket: u64,
)
    requires
        v.well_formed(),
    ensures
        v.published(next).well_formed(),
        v.issued < u64::MAX ==> v.waiting_for(states).well_formed(),
        v.given_up(ticket).well_formed(),
{
    lemma_not_woken(v.waiters, next);
    lemma_without_ticket(v.waiters, ticket);
    assert forall|i: int| 0 <= i < v.published(next).waiters.len() implies (
    #[trigger] v.published(next).waiters[i]).0 < v.issued by {
        let w = v.published(next).waiters[i];
        let k = choose|k: int| 0 <= k < v.waiters.len() && v.waiters[k] == w;
        assert(v.waiters[k].0 < v.issued);
    }
    assert forall|i: int| 0 <= i < v.given_up(ticket).waiters.len() implies (
    #[trigger] v.given_up(ticket).waiters[i]).0 < v.issued && !v.given_up(
        ticket,
    ).waiters[i].1.contains(v.current) by {
        let w = v.given_up(ticket).waiters[i];
        let k = choose|k: int| 0 <= k < v.waiters.len() && v.waiters[k] == w;
        assert(v.waiters[k].0 < v.issued);
        assert(!v.waiters[k].1.contains(v.current));
    }
}

/// The state of one thread and those who wait for it.
#[derive(Debug)]
pub struct ThreadState {
    pub current: State,
    pub subscribers: Vec<StateSubscriber>,
    /// How many tickets have been given out.
    pub issued: u64,
    /// Since when the thread waits for work, in milliseconds since the Unix epoch; zero while it
    /// does not.
    pub waiting_since: i64,
}

impl View for ThreadState {
    type V = Lifecycle;

    open spec fn view(&self) -> Lifecycle {
        Lifecycle {
            current: self.current,
            waiters: waiting(self.subscribers@),
            issued: self.issued as nat,
            waiting_since: self.waiting_since as int,
        }
    }
}

/// A reserved thread for which nobody waits.
pub open spec fn fresh_lifecycle() -> Lifecycle {
    Lifecycle { current: State::Reserved, waiters: seq![], issued: 0, waiting_since: 0 }
}

impl Default for ThreadState {
    fn default() -> (r: Self)
        ensures
            r@ == fresh_lifecycle(),
    {
        ThreadState::new()
    }
}

impl ThreadState {
    /// A reserved thread for which nobody waits.
    pub fn new() -> (r: Self)
        ensures
            r@ == fresh_lifecycle(),
            r@.well_formed(),
    {
        let r = ThreadState {
            current: State::Reserved,
            subscribers: Vec::new(),
            issued: 0,
            waiting_since: 0,
        };
        assert(r@.waiters =~= seq![]);
        r
    }

    /// Whether the thread is reserved and nobody has ever waited for it.
    pub fn is_new(&self) -> (r: bool)
        ensures
            r == (self@ == fresh_lifecycle()),
    {
        assert(self@.waiters.len() == self.subscribers@.len());
        let r = self.current == State::Reserved && self.subscribers.len() == 0 && self.issued == 0
            && self.waiting_since == 0;
        assert(r ==> self@.waiters =~= seq![]);
        r
    }

    /// Whether the state is this one.
    pub fn is(&self, state: State) -> (r: bool)
        ensures
            r == (self.current == state),
    {
        self.current == state
    }

    /// The state.
    pub fn get(&self) -> (r: State)
        ensures
            r == self.current,
    {
        self.current
    }

    /// The state's name in messages.
    pub fn name(&self) -> (r: &'static str)
        ensures
            r@ == self.current.name_spec(),
    {
        self.current.name()
    }

    /// Publishes a state, whatever the one before it was. Who waits for it is woken even where
    /// the state stays the same.
    pub fn set(&mut self, next_state: State)
        ensures
            final(self)@ == old(self)@.published(next_state),
    {
        self.current = next_state;
        self.notify_subscribers(next_state);
    }

    /// Publishes a state, if the state is the expected one.
    pub fn compare_and_swap(&mut self, compare_to: State, swap_to: State) -> (r: bool)
        ensures
            r == (old(self).current == compare_to),
            final(self)@ == (if r {
                old(self)@.published(swap_to)
            } else {
                old(self)@
            }),
    {
        if self.current != compare_to {
            return false;
        }
        self.set(swap_to);
        true
    }

    /// Drops everyone who waited for a published state, and keeps the others in order.
    fn notify_subscribers(&mut self, published: State)
        ensures
            final(self)@ == (Lifecycle {
                waiters: not_woken(old(self)@.waiters, published),
                ..old(self)@
            }),
    {
        let ghost before = self@.waiters;
        let mut i: usize = 0;
        let mut n: usize = self.subscribers.len();
        proof {
            assert(before.skip(0) =~= before);
            assert(self@.waiters =~= not_woken(before.take(0), published) + before.skip(0));
        }
        while i < n
            invariant
                n == self.subscribers@.len(),
                i <= n,
                n - i <= before.len(),
                self@.waiters == not_woken(before.take(before.len() - (n - i)), published)
                    + before.skip(before.len() - (n - i)),
                not_woken(before.take(before.len() - (n - i)), published).len() == i,
                self.current == old(self).current,
                self.issued == old(self).issued,
                self.waiting_since == old(self).waiting_since,
            decreases n - i,
        {
            let ghost at = before.len() - (n - i);
            proof {
                assert(before.take(at + 1).drop_last() =~= before.take(at));
                assert(before.take(at + 1).last() == before[at]);
                assert(before.skip(at) =~= seq![before[at]] + before.skip(at + 1));
                assert(self@.waiters[i as int] == before[at]);
                assert(self.subscribers@[i as int].states@ == before[at].1);
            }
            if is_among(published, self.subscribers[i].states.as_slice()) {
                let ghost subscribers = self.subscribers@;
                self.subscribers.remove(i);
                n = n - 1;
                assert(self@.waiters =~= waiting(subscribers).remove(i as int));
                assert(self@.waiters =~= not_woken(before.take(at + 1), published) + before.skip(
                    at + 1,
                ));
            } else {
                i = i + 1;
                assert(self@.waiters =~= not_woken(before.take(at + 1), published) + before.skip(
                    at + 1,
                ));
            }
        }
        proof {
            assert(before.take(before.len() as int) =~= before);
            assert(self@.waiters =~= not_woken(before, published));
        }
    }

    /// Starts to wait for any of `states`.
    pub fn wait_for(&mut self, states: &[State]) -> (r: Wait)
        requires
            old(self).issued < u64::MAX,
        ensures
            r == old(self)@.wait(states@),
            final(self)@ == old(self)@.waiting_for(states@),
    {
        if is_among(self.current, states) {
            return Wait::Reached;
        }
        let ticket: u64 = self.issued;
        self.issued = ticket + 1;
        let copy = copy_states(states);
        self.subscribers.push(StateSubscriber { ticket, states: copy });
        assert(self@.waiters =~= old(self)@.waiters.push((ticket, states@)));
        Wait::Pending(ticket)
    }

    /// Whether a ticket is pending.
    pub fn is_pending(&self, ticket: u64) -> (r: bool)
        ensures
            r == pending(self@.waiters, ticket),
    {
        let mut i: usize = 0;
        while i < self.subscribers.len()
            invariant
                i <= self.subscribers@.len(),
                forall|k: int| 0 <= k < i ==> (#[trigger] self@.waiters[k]).0 != ticket,
            decreases self.subscribers@.len() - i,
        {
            assert(self@.waiters[i as int].0 == self.subscribers@[i as int].ticket);
            if self.subscribers[i].ticket == ticket {
                return true;
            }
            i = i + 1;
        }
        false
    }

    /// One look at a wait with a time limit: whether the state was reached, once that is known.
    /// A ticket that is pending when the time is up is given up.
    pub fn wait_for_state_with_timeout(&mut self, ticket: u64, time_is_up: bool) -> (r: Option<bool>)
        ensures
            r == (if !pending(old(self)@.waiters, ticket) {
                Some(true)
            } else if time_is_up {
                Some(false)
            } else {
                None
            }),
            final(self)@ == (if r == Some(false) {
                old(self)@.given_up(ticket)
            } else {
                old(self)@
            }),
    {
        if !self.is_pending(ticket) {
            return Some(true);
        }
        if !time_is_up {
            return None;
        }
        let ghost before = self@.waiters;
        let mut i: usize = 0;
        let mut n: usize = self.subscribers.len();
        proof {
            assert(before.skip(0) =~= before);
            assert(self@.waiters =~= without_ticket(before.take(0), ticket) + before.skip(0));
        }
        while i < n
            invariant
                n == self.subscribers@.len(),
                i <= n,
                n - i <= before.len(),
                self@.waiters == without_ticket(before.take(before.len() - (n - i)), ticket)
                    + before.skip(before.len() - (n - i)),
                without_ticket(before.take(before.len() - (n - i)), ticket).len() == i,
                self.current == old(self).current,
                self.issued == old(self).issued,
                self.waiting_since == old(self).waiting_since,
            decreases n - i,
        {
            let ghost at = before.len() - (n - i);
            proof {
                assert(before.take(at + 1).drop_last() =~= before.take(at));
                assert(before.take(at + 1).last() == before[at]);
                assert(before.skip(at) =~= seq![before[at]] + before.skip(at + 1));
                assert(self@.waiters[i as int] == before[at]);
                assert(self.subscribers@[i as int].ticket == before[at].0);
            }
            if self.subscribers[i].ticket == ticket {
                let ghost subscribers = self.subscribers@;
                self.subscribers.remove(i);
                n = n - 1;
                assert(self@.waiters =~= waiting(subscribers).remove(i as int));
                assert(self@.waiters =~= without_ticket(before.take(at + 1), ticket) + before.skip(
                    at + 1,
                ));
            } else {
                i = i + 1;
                assert(self@.waiters =~= without_ticket(before.take(at + 1), ticket) + before.skip(
                    at + 1,
                ));
            }
        }
        proof {
            assert(before.take(before.len() as int) =~= before);
            assert(self@.waiters =~= without_ticket(before, ticket));
        }
        Some(false)
    }

    /// Asks for a state change that only a thread in a stable state takes. The states that end a
    /// wait hold the reserved one too, which the next request rejects.
    pub fn request_safe_state_change(&mut self, next_state: State) -> (r: SafeChange)
        requires
            old(self).issued < u64::MAX,
        ensures
            r is Rejected == (old(self).current == State::Reserved || old(self).current
                == State::ShuttingDown || old(self).current == State::Done),
            r is Accepted == (old(self).current == State::Ready || old(self).current
                == State::Inactive),
            r matches SafeChange::Later(ticket) ==> ticket == old(self).issued,
            final(self)@ == (match r {
                SafeChange::Rejected => old(self)@,
                SafeChange::Accepted => old(self)@.published(next_state),
                SafeChange::Later(_) => old(self)@.waiting_for(
                    seq![State::Ready, State::Inactive, State::Reserved],
                ),
            }),
    {
        match self.current {
            State::Reserved | State::ShuttingDown | State::Done => SafeChange::Rejected,
            State::Ready | State::Inactive => {
                self.set(next_state);
                SafeChange::Accepted
            },
            _ => {
                let states = [State::Ready, State::Inactive, State::Reserved];
                assert(states@ =~= seq![State::Ready, State::Inactive, State::Reserved]);
                match self.wait_for(states.as_slice()) {
                    Wait::Pending(ticket) => SafeChange::Later(ticket),
                    Wait::Reached => SafeChange::Rejected,
                }
            },
        }
    }

    /// Notes since when the thread waits for work, or that it does not.
    pub fn mark_as_waiting(&mut self, is_waiting: bool, now: UnixTime)
        requires
            now.nanos < 1_000_000_000,
        ensures
            final(self)@ == old(self)@.marked(
                if is_waiting {
                    now.millis_since_epoch()
                } else {
                    0
                },
            ),
    {
        self.waiting_since = if is_waiting {
            unix_millis(now)
        } else {
            0
        };
    }

    /// Whether the thread waits for work.
    pub fn is_in_waiting_state(&self) -> (r: bool)
        ensures
            r == (self.waiting_since != 0),
    {
        self.waiting_since != 0
    }

    /// For how many milliseconds the thread has been waiting for work; negative where the clock
    /// went back.
    pub fn wait_time(&self, now: UnixTime) -> (r: i64)
        requires
            now.nanos < 1_000_000_000,
        ensures
            r == (if self.waiting_since == 0 {
                0i64
            } else {
                (now.millis_since_epoch() as i64).wrapping_sub(
                    self.waiting_since,
                )
            }),
    {
        if self.waiting_since == 0 {
            return 0;
        }
        unix_millis(now).wrapping_sub(self.waiting_since)
    }

    /// Notes that the thread waits for work since `time`.
    pub fn set_wait_time(&mut self, time: UnixTime)
        requires
            time.nanos < 1_000_000_000,
        ensures
            final(self)@ == old(self)@.marked(time.millis_since_epoch()),
    {
        self.waiting_since = unix_millis(time);
    }
}

fn copy_states(states: &[State]) -> (r: Vec<State>)
    ensures
        r@ == states@,
{
    let mut r: Vec<State> = Vec::new();
    let mut i: usize = 0;
    while i < states.len()
        invariant
            i <= states@.len(),
            r@ == states@.take(i as int),
        decreases states@.len() - i,
    {
        r.push(states[i]);
        i = i + 1;
        assert(r@ =~= states@.take(i as int));
    }
    assert(r@ =~= states@);
    r
}

proof fn lemma_not_woken(subscribers: Seq<(u64, Seq<State>)>, published: State)
    ensures
        ({
            let rest = not_woken(subscribers, published);
            &&& forall|i: int|
                0 <= i < rest.len() ==> subscribers.contains(#[trigger] rest[i])
                    && !rest[i].1.contains(published)
            &&& (forall|i: int, j: int|
                0 <= i < j < subscribers.len() ==> (#[trigger] subscribers[i]).0 != (
                #[trigger] subscribers[j]).0) ==> (forall|i: int, j: int|
                0 <= i < j < rest.len() ==> (#[trigger] rest[i]).0 != (#[trigger] rest[j]).0)
        }),
    decreases subscribers.len(),
{
    if subscribers.len() > 0 {
        let front = subscribers.drop_last();
        lemma_not_woken(front, published);
        let before = not_woken(front, published);
        let rest = not_woken(subscribers, published);
        assert forall|i: int| 0 <= i < rest.len() implies subscribers.contains(#[trigger] rest[i])
            && !rest[i].1.contains(published) by {
            if i < before.len() {
                assert(rest[i] == before[i]);
                assert(front.contains(before[i]));
                let k = choose|k: int| 0 <= k < front.len() && front[k] == before[i];
                assert(subscribers[k] == before[i]);
            } else {
                assert(rest[i] == subscribers[subscribers.len() - 1]);
            }
        }
        if forall|i: int, j: int|
            0 <= i < j < subscribers.len() ==> (#[trigger] subscribers[i]).0 != (
            #[trigger] subscribers[j]).0 {
            assert forall|i: int, j: int| 0 <= i < j < front.len() implies (#[trigger] front[i]).0
                != (#[trigger] front[j]).0 by {
                assert(subscribers[i].0 != subscribers[j].0);
            }
            assert forall|i: int, j: int| 0 <= i < j < rest.len() implies (#[trigger] rest[i]).0
                != (#[trigger] rest[j]).0 by {
                if j < before.len() {
                    assert(before[i].0 != before[j].0);
                } else {
                    assert(front.contains(before[i]));
                    let k = choose|k: int| 0 <= k < front.len() && front[k] == before[i];
                    assert(subscribers[k].0 != subscribers[subscribers.len() - 1].0);
                }
            }
        }
    }
}

proof fn lemma_without_ticket(subscribers: Seq<(u64, Seq<State>)>, ticket: u64)
    ensures
        ({
            let rest = without_ticket(subscribers, ticket);
            &&& forall|i: int|
                0 <= i < rest.len() ==> subscribers.contains(#[trigger] rest[i]) && rest[i].0
                    != ticket
            &&& (forall|i: int, j: int|
                0 <= i < j < subscribers.len() ==> (#[trigger] subscribers[i]).0 != (
                #[trigger] subscribers[j]).0) ==> (forall|i: int, j: int|
                0 <= i < j < rest.len() ==> (#[trigger] rest[i]).0 != (#[trigger] rest[j]).0)
        }),
    decreases subscribers.len(),
{
    if subscribers.len() > 0 {
        let front = subscribers.drop_last();
        lemma_without_ticket(front, ticket);
        let before = without_ticket(front, ticket);
        let rest = without_ticket(subscribers, ticket);
        assert forall|i: int| 0 <= i < rest.len() implies subscribers.contains(#[trigger] rest[i])
            && rest[i].0 != ticket by {
            if i < before.len() {
                assert(rest[i] == before[i]);
                assert(front.contains(before[i]));
                let k = choose|k: int| 0 <= k < front.len() && front[k] == before[i];
                assert(subscribers[k] == before[i]);
            } else {
                assert(rest[i] == subscribers[subscribers.len() - 1]);
            }
        }
        if forall|i: int, j: int|
            0 <= i < j < subscribers.len() ==> (#[trigger] subscribers[i]).0 != (
            #[trigger] subscribers[j]).0 {
            assert forall|i: int, j: int| 0 <= i < j < front.len() implies (#[trigger] front[i]).0
                != (#[trigger] front[j]).0 by {
                assert(subscribers[i].0 != subscribers[j].0);
            }
            assert forall|i: int, j: int| 0 <= i < j < rest.len() implies (#[trigger] rest[i]).0
                != (#[trigger] rest[j]).0 by {
                if j < before.len() {
                    assert(before[i].0 != before[j].0);
                } else {
                    assert(front.contains(before[i]));
                    let k = choose|k: int| 0 <= k < front.len() && front[k] == before[i];
                    assert(subscribers[k].0 != subscribers[subscribers.len() - 1].0);
                }
            }
        }
    }
}

/// A ticket is pending from the moment it is given out until a state that it waits for is
/// published, whatever is published before.
pub proof fn lemma_ticket_pending_until_published(v: Lifecycle, states: Seq<State>, published: State)
    requires
        v.well_formed(),
        v.issued < u64::MAX,
        !states.contains(v.current),
    ensures
        v.wait(states) == Wait::Pending(v.issued as u64),
        pending(v.waiting_for(states).waiters, v.issued as u64),
        pending(v.waiting_for(states).published(published).waiters, v.issued as u64)
            == !states.contains(published),
{
    let t = v.issued as u64;
    let w = v.waiting_for(states);
    assert(w.waiters[v.waiters.len() as int] == (t, states));
    lemma_publish_wakes_exactly(w.waiters, published);
    let rest = w.published(published).waiters;
    if pending(rest, t) {
        let i = choose|i: int| 0 <= i < rest.len() && (#[trigger] rest[i]).0 == t;
        assert(w.waiters.contains(rest[i]));
        let k = choose|k: int| 0 <= k < w.waiters.len() && w.waiters[k] == rest[i];
        assert(k == v.waiters.len());
        lemma_not_woken(w.waiters, published);
        assert(!rest[i].1.contains(published));
    }
    if !states.contains(published) {
        assert(rest.contains(w.waiters[v.waiters.len() as int]));
        let i = choose|i: int| 0 <= i < rest.len() && rest[i] == (t, states);
        assert(rest[i].0 == t);
    }
}

/// A wake-up is never lost and never invented: publishing a state ends the wait of exactly those
/// who wait for it.
pub proof fn lemma_publish_wakes_exactly(subscribers: Seq<(u64, Seq<State>)>, published: State)
    ensures
        forall|i: int|
            0 <= i < subscribers.len() ==> not_woken(subscribers, published).contains(
                #[trigger] subscribers[i],
            ) == !subscribers[i].1.contains(published),
        forall|i: int|
            0 <= i < not_woken(subscribers, published).len() ==> subscribers.contains(
                #[trigger] not_woken(subscribers, published)[i],
            ),
    decreases subscribers.len(),
{
    lemma_not_woken(subscribers, published);
    if subscribers.len() > 0 {
        let front = subscribers.drop_last();
        let before = not_woken(front, published);
        let rest = not_woken(subscribers, published);
        lemma_publish_wakes_exactly(front, published);
        assert forall|i: int| 0 <= i < subscribers.len() implies rest.contains(
            #[trigger] subscribers[i],
        ) == !subscribers[i].1.contains(published) by {
            if rest.contains(subscribers[i]) {
                let k = choose|k: int| 0 <= k < rest.len() && rest[k] == subscribers[i];
                assert(!rest[k].1.contains(published));
            }
            if !subscribers[i].1.contains(published) {
                if i < front.len() {
                    assert(front[i] == subscribers[i]);
                    assert(before.contains(front[i]));
                    let k = choose|k: int| 0 <= k < before.len() && before[k] == front[i];
                    assert(rest[k] == subscribers[i]);
                } else {
                    assert(rest[rest.len() - 1] == subscribers[i]);
                }
            }
        }
    }
}

/// States are told apart by their names in messages.
pub proof fn lemma_state_names_differ(a: State, b: State)
    requires
        a.name_spec() == b.name_spec(),
    ensures
        a == b,
{
    reveal_strlit("reserved");
    reveal_strlit("booting");
    reveal_strlit("boot requested");
    reveal_strlit("shutting down");
    reveal_strlit("done");
    reveal_strlit("inactive");
    reveal_strlit("ready");
    reveal_strlit("transition requested");
    reveal_strlit("transition in progress");
    reveal_strlit("transition complete");
    reveal_strlit("rebooting");
    reveal_strlit("rebooting (force)");
    reveal_strlit("reboot ready");
    reveal_strlit("yielding for reboot");
    let x = a.name_spec();
    let y = b.name_spec();
    assert(x.len() == y.len());
    assert(x[0] == y[0]);
    assert(x[x.len() - 1] == y[y.len() - 1]);
    assert(x[x.len() - 2] == y[y.len() - 2]);
}

/// Time in milliseconds is the last whole one that has begun, as far as 64 bits can hold it, and
/// a later time has no smaller number.
pub proof fn lemma_milliseconds(time: UnixTime, later: UnixTime)
    requires
        time.nanos_since_epoch() <= later.nanos_since_epoch(),
    ensures
        i64::MIN < time.millis_since_epoch() < i64::MAX ==> time.millis_since_epoch() * 1_000_000
            <= time.nanos_since_epoch() < (time.millis_since_epoch() + 1) * 1_000_000,
        i64::MIN <= time.millis_since_epoch() <= i64::MAX,
        time.millis_since_epoch() <= later.millis_since_epoch(),
        !time.before_epoch ==> time.nanos_since_epoch() == time.secs * 1_000_000_000 + time.nanos,
        time.before_epoch ==> time.nanos_since_epoch() == -(time.secs * 1_000_000_000
            + time.nanos),
{
    let a = time.nanos_since_epoch();
    let b = later.nanos_since_epoch();
    assert(a / 1_000_000 <= b / 1_000_000) by (nonlinear_arith)
        requires
            a <= b,
    ;
    assert((a / 1_000_000) * 1_000_000 <= a < (a / 1_000_000 + 1) * 1_000_000) by (
    nonlinear_arith);
}

/// Who gives up waiting is not waited for any more, and nobody else is affected.
pub proof fn lemma_giving_up_affects_nobody_else(v: Lifecycle, ticket: u64, other: u64)
    ensures
        !pending(v.given_up(ticket).waiters, ticket),
        other != ticket ==> pending(v.given_up(ticket).waiters, other) == pending(
            v.waiters,
            other,
        ),
        v.given_up(ticket).current == v.current,
        v.given_up(ticket).issued == v.issued,
{
    lemma_without_ticket_pending(v.waiters, ticket, other);
}

proof fn lemma_without_ticket_pending(
    subscribers: Seq<(u64, Seq<State>)>,
    ticket: u64,
    other: u64,
)
    ensures
        !pending(without_ticket(subscribers, ticket), ticket),
        other != ticket ==> pending(without_ticket(subscribers, ticket), other) == pending(
            subscribers,
            other,
        ),
    decreases subscribers.len(),
{
    if subscribers.len() > 0 {
        let front = subscribers.drop_last();
        let last = subscribers.last();
        let before = without_ticket(front, ticket);
        let rest = without_ticket(subscribers, ticket);
        lemma_without_ticket_pending(front, ticket, other);
        if pending(rest, ticket) {
            let i = choose|i: int| 0 <= i < rest.len() && (#[trigger] rest[i]).0 == ticket;
            if i < before.len() {
                assert(before[i].0 == ticket);
            }
        }
        if other != ticket {
            if pending(rest, other) {
                let i = choose|i: int| 0 <= i < rest.len() && (#[trigger] rest[i]).0 == other;
                if i < before.len() {
                    assert(before[i].0 == other);
                    let k = choose|k: int| 0 <= k < front.len() && (#[trigger] front[k]).0 == other;
                    assert(subscribers[k].0 == other);
                } else {
                    assert(subscribers[subscribers.len() - 1].0 == other);
                }
            }
            if pending(subscribers, other) {
                let i = choose|i: int|
                    0 <= i < subscribers.len() && (#[trigger] subscribers[i]).0 == other;
                if i < front.len() {
                    assert(front[i].0 == other);
                    let k = choose|k: int|
                        0 <= k < before.len() && (#[trigger] before[k]).0 == other;
                    assert(rest[k].0 == other);
                } else {
                    assert(rest[rest.len() - 1].0 == other);
                }
            }
        }
    }
}

/// A state that is published is the state, and nothing else changes but who waits; a wish to wait
/// changes nothing but who waits, is met at once where the state is one of those wished for, and
/// otherwise gets a ticket that nobody had.
pub proof fn lemma_publishing_and_waiting(v: Lifecycle, next: State, states: Seq<State>)
    requires
        v.well_formed(),
        v.issued < u64::MAX,
    ensures
        v.published(next).current == next,
        v.published(next).issued == v.issued,
        v.published(next).waiting_since == v.waiting_since,
        (v.wait(states) is Reached) == states.contains(v.current),
        v.waiting_for(states).current == v.current,
        v.waiting_for(states).waiting_since == v.waiting_since,
        v.wait(states) is Reached ==> v.waiting_for(states) == v,
        v.wait(states) matches Wait::Pending(ticket) ==> !pending(v.waiters, ticket) && pending(
            v.waiting_for(states).waiters,
            ticket,
        ),
{
    if !states.contains(v.current) {
        let ticket = v.issued as u64;
        let w = v.waiting_for(states).waiters;
        assert(w[v.waiters.len() as int].0 == ticket);
        if pending(v.waiters, ticket) {
            let i = choose|i: int| 0 <= i < v.waiters.len() && (#[trigger] v.waiters[i]).0 == ticket;
            assert(v.waiters[i].0 < v.issued);
        }
    }
}

/// A state changes as it is asked for: set, or swapped where it is the one expected and left
/// alone where it is not.
pub proof fn lemma_states_change_as_asked(
    s1: &mut ThreadState,
    next: State,
    s2: &mut ThreadState,
    compare_to: State,
    swap_to: State,
    swapped: bool,
)
    requires
        call_ensures(ThreadState::set, (s1, next), ()),
        call_ensures(ThreadState::compare_and_swap, (s2, compare_to, swap_to), swapped),
    ensures
        final(s1)@.current == next,
        final(s1)@.issued == old(s1)@.issued,
        swapped == (old(s2)@.current == compare_to),
        swapped ==> final(s2)@ == old(s2)@.published(swap_to) && final(s2)@.current == swap_to,
        !swapped ==> final(s2)@ == old(s2)@,
{
}

/// A change of state is taken only by a thread at rest: ready or inactive it takes it at once,
/// reserved, shutting down or done it never does, and otherwise whoever asks is woken when the
/// thread rests or is gone.
pub proof fn lemma_safe_changes(
    s: &mut ThreadState,
    next: State,
    r: SafeChange,
    published: State,
)
    requires
        old(s)@.well_formed(),
        old(s)@.issued < u64::MAX,
        call_ensures(ThreadState::request_safe_state_change, (s, next), r),
    ensures
        ({
            let current = old(s)@.current;
            let rests = current == State::Ready || current == State::Inactive;
            let gone = current == State::Reserved || current == State::ShuttingDown || current
                == State::Done;
            &&& rests <==> r is Accepted
            &&& gone <==> r is Rejected
            &&& rests ==> final(s)@.current == next
            &&& !rests ==> final(s)@.current == current
            &&& r matches SafeChange::Later(ticket) ==> pending(final(s)@.waiters, ticket)
                && pending(final(s)@.published(published).waiters, ticket) == !(published
                == State::Ready || published == State::Inactive || published == State::Reserved)
        }),
{
    let states = seq![State::Ready, State::Inactive, State::Reserved];
    assert(states[0] == State::Ready);
    assert(states[1] == State::Inactive);
    assert(states[2] == State::Reserved);
    if r is Later {
        lemma_ticket_pending_until_published(old(s)@, states, published);
    }
}

/// A thread waits for work since it was noted, until it is noted that it does not.
pub proof fn lemma_waiting_is_noted(
    s1: &mut ThreadState,
    now: UnixTime,
    s2: &mut ThreadState,
    later: UnixTime,
)
    requires
        call_ensures(ThreadState::mark_as_waiting, (s1, true, now), ()),
        call_ensures(ThreadState::mark_as_waiting, (s2, false, later), ()),
    ensures
        final(s1)@.waiting_since == now.millis_since_epoch(),
        final(s1)@.current == old(s1)@.current,
        final(s2)@.waiting_since == 0,
        final(s2)@.current == old(s2)@.current,
{
}

} // verus!
