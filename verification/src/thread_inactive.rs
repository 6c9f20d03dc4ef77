//! A PHP thread that has no work assigned.
//!
//! An idle interpreter costs memory, but it is ready when a handler comes.
use vstd::prelude::*;

use crate::context::{ContextSlots, RequestContext};
use crate::drain::{ClosedDrainGeneration, DrainChannel};
use crate::state::State;
use crate::thread::{Decision, HandlerAction, PhpThread, PhpThreadView, ThreadHandler};

verus! {

/// The handler of a thread without work.
#[derive(Debug)]
pub struct InactiveThread;

/// What ends the rest of an inactive thread.
pub open spec fn rest_enders() -> Seq<State> {
    seq![
        State::TransitionRequested,
        State::ShuttingDown,
        State::Rebooting,
        State::ForceRebooting,
    ]
}

/// The states of which an inactive thread knows what to make.
pub open spec fn inactive_states() -> Seq<State> {
    seq![
        State::Booting,
        State::TransitionRequested,
        State::TransitionComplete,
        State::Inactive,
        State::ShuttingDown,
        State::Rebooting,
        State::ForceRebooting,
        State::RebootReady,
    ]
}

/// What an inactive thread does in a state. In one that is none of its own it stays where it is:
/// an end would leave the thread to nobody.
pub open spec fn inactive_decision(state: State) -> Decision {
    match state {
        State::TransitionRequested => Decision::HandOver { leave: false },
        State::Booting | State::TransitionComplete | State::Inactive => Decision::Park {
            state: State::Inactive,
            until: rest_enders(),
        },
        State::Rebooting | State::ForceRebooting | State::ShuttingDown => Decision::Stop {
            leave: false,
        },
        State::RebootReady => Decision::Publish(State::Inactive),
        _ => Decision::AwaitKnown(inactive_states()),
    }
}

impl ThreadHandler for InactiveThread {
    open spec fn title(&self) -> Seq<char> {
        "Inactive PHP Thread"@
    }

    open spec fn label(&self) -> Seq<char> {
        "inactive PHP thread"@
    }

    open spec fn decides(&self, state: State) -> Decision {
        inactive_decision(state)
    }

    open spec fn ends_requests(&self) -> bool {
        false
    }

    fn name(&self) -> (r: &str) {
        "Inactive PHP Thread"
    }

    fn log_name(&self) -> (r: &str) {
        "inactive PHP thread"
    }

    fn before_script_execution(&self, state: State) -> (r: HandlerAction) {
        match state {
            State::TransitionRequested => HandlerAction::HandOver { leave: false },
            State::Booting | State::TransitionComplete | State::Inactive => {
                let until = vec![
                    State::TransitionRequested,
                    State::ShuttingDown,
                    State::Rebooting,
                    State::ForceRebooting,
                ];
                assert(until@ =~= rest_enders());
                HandlerAction::Park { state: State::Inactive, until }
            },
            State::Rebooting | State::ForceRebooting | State::ShuttingDown => HandlerAction::Stop {
                leave: false,
            },
            State::RebootReady => HandlerAction::Publish(State::Inactive),
            _ => {
                let states = vec![
                    State::Booting,
                    State::TransitionRequested,
                    State::TransitionComplete,
                    State::Inactive,
                    State::ShuttingDown,
                    State::Rebooting,
                    State::ForceRebooting,
                    State::RebootReady,
                ];
                assert(states@ =~= inactive_states());
                HandlerAction::AwaitKnown(states)
            },
        }
    }

    fn after_script_execution(
        &self,
        _slots: &mut ContextSlots,
        _thread_index: usize,
        _exit_status: i32,
    ) -> (r: Option<RequestContext>) {
        None
    }
}

/// Takes the work from a thread that waits for its next handler.
pub fn convert_to_inactive_thread(thread: &mut PhpThread, closed: ClosedDrainGeneration)
    ensures
        final(thread)@ == (PhpThreadView {
            lifecycle: old(thread)@.lifecycle.published(State::TransitionComplete),
            handler: final(thread)@.handler,
            drain: final(thread)@.drain,
            ..old(thread)@
        }),
        final(thread)@.handler matches Some(handler) && handler.title() == "Inactive PHP Thread"@
            && handler.label() == "inactive PHP thread"@ && !handler.ends_requests() && forall|state: State| #[trigger]
            handler.decides(state) == inactive_decision(state),
        closed.generation == old(thread)@.drain.tag() && !old(thread)@.drain.is_open()
            ==> DrainChannel::is_next(old(thread)@.drain, final(thread)@.drain),
        !(closed.generation == old(thread)@.drain.tag() && !old(thread)@.drain.is_open()) ==> final(thread)@.drain
            == old(thread)@.drain,
{
    thread.complete_set_handler(Box::new(InactiveThread), closed);
}

/// An inactive thread never runs a script and never spins: in every state it ends, hands over or
/// waits, or publishes a state in which it waits. Where it waits, no state that it knows is
/// missed, and the state that it is in does not end its rest at once.
pub proof fn lemma_inactive_settles(state: State)
    ensures
        !(inactive_decision(state) is Prepare),
        !(inactive_decision(state) is AwaitRequest),
        inactive_decision(state) matches Decision::Publish(next) ==> inactive_decision(
            next,
        ) is Park,
        inactive_decision(state) matches Decision::Park { state: rest, until } ==> !until.contains(
            rest,
        ) && inactive_decision(rest) is Park,
        inactive_decision(state) matches Decision::AwaitKnown(states) ==> !states.contains(state),
        (inactive_decision(state) is AwaitKnown) == !inactive_states().contains(state),
{
    let known = inactive_states();
    assert(known[0] == State::Booting);
    assert(known[1] == State::TransitionRequested);
    assert(known[2] == State::TransitionComplete);
    assert(known[3] == State::Inactive);
    assert(known[4] == State::ShuttingDown);
    assert(known[5] == State::Rebooting);
    assert(known[6] == State::ForceRebooting);
    assert(known[7] == State::RebootReady);
}

/// A parked idle thread is woken by everything that concerns it: in whatever state it parks, the
/// states in which it would end or hand over are among those that end its rest, and so is every
/// state in which it is asked to hand over, to end or to reboot.
pub proof fn lemma_rest_ends(state: State, other: State)
    ensures
        inactive_decision(state) matches Decision::Park { state: rest, until } ==> {
            &&& rest == State::Inactive
            &&& inactive_decision(other) is HandOver || inactive_decision(other) is Stop
                ==> until.contains(other)
            &&& until.contains(State::TransitionRequested)
            &&& until.contains(State::ShuttingDown)
            &&& until.contains(State::Rebooting)
            &&& until.contains(State::ForceRebooting)
        },
{
    let until = rest_enders();
    assert(until[0] == State::TransitionRequested);
    assert(until[1] == State::ShuttingDown);
    assert(until[2] == State::Rebooting);
    assert(until[3] == State::ForceRebooting);
}

/// An idle thread does as it is told: it parks once it is booted or has taken over, hands over
/// when that is asked for, ends when it is to end or to reboot, and is idle again behind a
/// reboot. Any other state is none of its own, and then exactly the states that are end its wait.
pub proof fn lemma_idle_thread_obeys(state: State)
    ensures
        (inactive_decision(state) is Park) == (state == State::Booting || state
            == State::TransitionComplete || state == State::Inactive),
        (inactive_decision(state) is HandOver) == (state == State::TransitionRequested),
        (inactive_decision(state) is Stop) == (state == State::ShuttingDown || state
            == State::Rebooting || state == State::ForceRebooting),
        inactive_decision(State::RebootReady) == Decision::Publish(State::Inactive),
        inactive_decision(state) matches Decision::AwaitKnown(states) ==> forall|s: State|
            states.contains(s) == !(#[trigger] inactive_decision(s) is AwaitKnown),
        inactive_decision(state) matches Decision::HandOver { leave } ==> !leave,
        inactive_decision(state) matches Decision::Stop { leave } ==> !leave,
{
    assert forall|s: State| inactive_states().contains(s) == !(#[trigger] inactive_decision(
        s,
    ) is AwaitKnown) by {
        lemma_inactive_settles(s);
    }
}

} // verus!
