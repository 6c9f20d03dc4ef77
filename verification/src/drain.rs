//! The channel by whose end a parked thread learns that it is to look at its state again.
//!
//! Nothing is ever sent. Closing a generation drops the only sender, which every receiver of
//! that generation observes, and reopening starts the next generation with a channel of its own.
use crossbeam_channel::{Receiver, Sender};
use vstd::prelude::*;

verus! {

#[verifier::external_type_specification]
#[verifier::external_body]
#[verifier::reject_recursive_types(T)]
pub struct ExSender<T>(crossbeam_channel::Sender<T>);

#[verifier::external_type_specification]
#[verifier::external_body]
#[verifier::reject_recursive_types(T)]
pub struct ExReceiver<T>(crossbeam_channel::Receiver<T>);

/// The channel that a sender belongs to. Two senders belong to the same one where
/// `Sender::same_channel` says so.
pub uninterp spec fn sending_channel(sender: Sender<()>) -> int;

/// The channel that a receiver belongs to. Two receivers belong to the same one where
/// `Receiver::same_channel` says so.
pub uninterp spec fn receiving_channel(receiver: Receiver<()>) -> int;

/// `crossbeam_channel::unbounded` opens a channel and hands out its two ends. It is another
/// channel than that of any receiver that is alive.
#[verifier::external_body]
fn open_channel(previous: Option<&Receiver<()>>) -> (r: (Sender<()>, Receiver<()>))
    ensures
        sending_channel(r.0) == receiving_channel(r.1),
        previous matches Some(p) ==> receiving_channel(*p) != receiving_channel(r.1),
{
    crossbeam_channel::unbounded()
}

/// `Receiver::clone` gives a further receiver of the same channel.
#[verifier::external_body]
fn another_receiver(receiver: &Receiver<()>) -> (r: Receiver<()>)
    ensures
        receiving_channel(r) == receiving_channel(*receiver),
{
    receiver.clone()
}

/// A receiver of one generation. Its channel ends when that generation is closed.
pub struct DrainReceiver {
    generation: u64,
    receiver: Receiver<()>,
}

impl DrainReceiver {
    /// The generation.
    pub closed spec fn tag(&self) -> u64 {
        self.generation
    }

    /// The channel.
    pub closed spec fn channel(&self) -> int {
        receiving_channel(self.receiver)
    }

    /// The generation.
    pub fn generation(&self) -> (r: u64)
        ensures
            r == self.tag(),
    {
        self.generation
    }

    /// The receiver, to be selected on beside others.
    pub fn receiver(&self) -> (r: &Receiver<()>)
        ensures
            receiving_channel(*r) == self.channel(),
    {
        &self.receiver
    }
}

impl Clone for DrainReceiver {
    fn clone(&self) -> (r: Self)
        ensures
            r.tag() == self.tag(),
            r.channel() == self.channel(),
    {
        DrainReceiver { generation: self.generation, receiver: another_receiver(&self.receiver) }
    }
}

/// Proof that a generation was closed, with which it is reopened.
#[derive(Debug, PartialEq, Eq)]
pub struct ClosedDrainGeneration {
    pub generation: u64,
}

/// The current generation. There is a receiver at all times, before, between and after a close
/// and a reopening: who asks for one after a close still learns of the close.
pub struct DrainChannel {
    generation: u64,
    sender: Option<Sender<()>>,
    receiver: Receiver<()>,
}

impl DrainChannel {
    #[verifier::type_invariant]
    spec fn inv(&self) -> bool {
        self.sender matches Some(sender) ==> sending_channel(sender) == receiving_channel(
            self.receiver,
        )
    }

    /// The generation.
    pub closed spec fn tag(&self) -> u64 {
        self.generation
    }

    /// The channel of the generation.
    pub closed spec fn channel(&self) -> int {
        receiving_channel(self.receiver)
    }

    /// Whether the generation has not been closed.
    pub closed spec fn is_open(&self) -> bool {
        self.sender is Some
    }

    /// Whether one channel is another with the next generation begun.
    pub open spec fn is_next(before: DrainChannel, after: DrainChannel) -> bool {
        &&& after.is_open()
        &&& after.tag() == before.tag().wrapping_add(1)
        &&& after.channel() != before.channel()
    }

    /// Whether one channel is another with its generation closed.
    pub open spec fn is_closed_form(before: DrainChannel, after: DrainChannel) -> bool {
        &&& !after.is_open()
        &&& after.tag() == before.tag()
        &&& after.channel() == before.channel()
    }

    /// An open channel of generation zero.
    pub fn new() -> (r: Self)
        ensures
            r.tag() == 0,
            r.is_open(),
    {
        let (sender, receiver) = open_channel(None);
        let held = Some(sender);
        DrainChannel { generation: 0, sender: held, receiver }
    }

    /// Whether this is the first generation, still open.
    pub fn is_first(&self) -> (r: bool)
        ensures
            r == (self.is_open() && self.tag() == 0),
    {
        self.sender.is_some() && self.generation == 0
    }

    /// A receiver of the current generation, closed or not.
    pub fn receiver(&self) -> (r: DrainReceiver)
        ensures
            r.tag() == self.tag(),
            r.channel() == self.channel(),
    {
        DrainReceiver { generation: self.generation, receiver: another_receiver(&self.receiver) }
    }

    /// Closes the generation, unless it is closed already.
    pub fn close(&mut self) -> (r: Option<ClosedDrainGeneration>)
        ensures
            r == (if old(self).is_open() {
                Some(ClosedDrainGeneration { generation: old(self).tag() })
            } else {
                None
            }),
            DrainChannel::is_closed_form(*old(self), *final(self)),
    {
        if self.sender.is_none() {
            return None;
        }
        self.sender = None;
        Some(ClosedDrainGeneration { generation: self.generation })
    }

    /// Opens the next generation in place of the one that was closed. A generation that is over
    /// reopens nothing.
    pub fn reopen(&mut self, closed: ClosedDrainGeneration)
        ensures
            closed.generation == old(self).tag() && !old(self).is_open() ==> DrainChannel::is_next(
                *old(self),
                *final(self),
            ),
            !(closed.generation == old(self).tag() && !old(self).is_open()) ==> *final(self)
                == *old(self),
    {
        if self.generation == closed.generation && self.sender.is_none() {
            let (sender, receiver) = open_channel(Some(&self.receiver));
            let held = Some(sender);
            *self = DrainChannel {
                generation: closed.generation.wrapping_add(1),
                sender: held,
                receiver,
            };
        }
    }

    /// Closes the generation and opens the next one. One that is closed already stays closed.
    pub fn renew(&mut self)
        ensures
            old(self).is_open() ==> DrainChannel::is_next(*old(self), *final(self)),
            !old(self).is_open() ==> DrainChannel::is_closed_form(*old(self), *final(self)),
    {
        match self.close() {
            Some(closed) => self.reopen(closed),
            None => {},
        }
    }
}

/// Generations are kept apart: what is reopened behind a close is open, and neither its number,
/// wherever the numbers wrap round, nor its channel is that of the generation that was closed.
pub proof fn lemma_generations_are_apart(
    before: DrainChannel,
    closed: DrainChannel,
    reopened: DrainChannel,
)
    requires
        DrainChannel::is_closed_form(before, closed),
        DrainChannel::is_next(closed, reopened),
    ensures
        !closed.is_open(),
        reopened.is_open(),
        reopened.tag() != before.tag(),
        reopened.channel() != before.channel(),
{
}

/// Closing reaches whoever holds a receiver: the channel that it belongs to is over, and that it
/// was closed now can be shown once. Reopened by that, the next generation has a channel of its
/// own and is open, and what was shown for another generation reopens nothing.
pub proof fn lemma_closing_and_reopening(
    d1: &mut DrainChannel,
    closed: Option<ClosedDrainGeneration>,
    d2: &mut DrainChannel,
    shown: ClosedDrainGeneration,
)
    requires
        call_ensures(DrainChannel::close, (d1,), closed),
        *final(d1) == *old(d2),
        call_ensures(DrainChannel::reopen, (d2, shown), ()),
    ensures
        closed is Some <==> old(d1).is_open(),
        !final(d1).is_open(),
        final(d1).channel() == old(d1).channel(),
        closed matches Some(c) ==> c.generation == old(d1).tag(),
        shown.generation == old(d1).tag() ==> final(d2).is_open() && final(d2).channel()
            != old(d1).channel() && final(d2).tag() != old(d1).tag(),
        shown.generation != old(d1).tag() ==> *final(d2) == *final(d1),
{
}

} // verus!
