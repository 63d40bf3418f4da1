//! The channels between the threads of the player.
//!
//! Each end that the library holds keeps a record, for the contracts alone, of
//! what was put to its channel and what the channel answered. Nothing here
//! waits for another thread.

use vstd::prelude::*;

verus! {

/// The sending half of a `crossbeam_channel` channel.
#[verifier::external_type_specification]
#[verifier::external_body]
#[verifier::reject_recursive_types(T)]
pub struct ExSender<T>(crossbeam_channel::Sender<T>);

/// The receiving half of a `crossbeam_channel` channel.
#[verifier::external_type_specification]
#[verifier::external_body]
#[verifier::reject_recursive_types(T)]
pub struct ExReceiver<T>(crossbeam_channel::Receiver<T>);

/// What became of a message that was offered to a channel.
#[derive(Debug)]
pub enum Sent<T> {
    /// It is in the channel.
    Delivered,
    /// The channel had no room for it; here it is again.
    Full(T),
    /// Nobody is left to receive it; here it is again.
    Disconnected(T),
}

/// What became of a message, without the message.
pub enum Fate {
    Delivered,
    Full,
    Disconnected,
}

impl<T> Sent<T> {
    pub open spec fn fate(self) -> Fate {
        match self {
            Sent::Delivered => Fate::Delivered,
            Sent::Full(_) => Fate::Full,
            Sent::Disconnected(_) => Fate::Disconnected,
        }
    }

    /// The message that came back, if it did.
    pub fn back(self) -> (r: Option<T>)
        ensures
            r == match self {
                Sent::Delivered => None,
                Sent::Full(message) => Some(message),
                Sent::Disconnected(message) => Some(message),
            },
    {
        match self {
            Sent::Delivered => None,
            Sent::Full(message) => Some(message),
            Sent::Disconnected(message) => Some(message),
        }
    }
}

/// A sending end. Its view is every message offered to the channel through
/// it, in order, whatever became of them.
#[verifier::reject_recursive_types(T)]
pub struct Outbox<T> {
    sender: crossbeam_channel::Sender<T>,
    offered: Ghost<Seq<T>>,
    became: Ghost<Seq<Fate>>,
    id: Ghost<int>,
}

impl<T> View for Outbox<T> {
    type V = Seq<T>;

    closed spec fn view(&self) -> Seq<T> {
        self.offered@
    }
}

impl<T> Outbox<T> {
    /// What became of each message in the view.
    pub closed spec fn fates(self) -> Seq<Fate> {
        self.became@
    }

    /// The channel that it leads to.
    pub closed spec fn channel(self) -> crossbeam_channel::Sender<T> {
        self.sender
    }

    /// Which channel it leads to: the ends of one channel have this in common.
    pub closed spec fn id(self) -> int {
        self.id@
    }

    /// Nothing has been offered through it yet.
    pub open spec fn unused(self) -> bool {
        self@ == Seq::<T>::empty() && self.fates() == Seq::<Fate>::empty()
    }

    /// Since `before`, exactly `message` has been offered.
    pub open spec fn offered_since(self, before: Outbox<T>, message: T) -> bool {
        &&& self@ == before@.push(message)
        &&& self.fates() == before.fates().push(self.fates().last())
        &&& self.channel() == before.channel()
        &&& self.id() == before.id()
    }

    /// A sending end over a channel that was made elsewhere. Nothing is said of
    /// which other ends the channel has.
    pub fn over(sender: crossbeam_channel::Sender<T>) -> (r: Outbox<T>)
        ensures
            r.unused(),
            r.channel() == sender,
    {
        Outbox {
            sender: sender,
            offered: Ghost(Seq::empty()),
            became: Ghost(Seq::empty()),
            id: Ghost(vstd::pervasive::arbitrary()),
        }
    }

    /// Another sending end over the same channel, with a record of its own.
    pub fn another(&self) -> (r: Outbox<T>)
        ensures
            r.unused(),
            r.channel() == self.channel(),
            r.id() == self.id(),
    {
        Outbox {
            sender: clone_sender(&self.sender),
            offered: Ghost(Seq::empty()),
            became: Ghost(Seq::empty()),
            id: Ghost(self.id@),
        }
    }

    /// Offers a message to the channel, without waiting.
    pub fn offer(&mut self, message: T) -> (r: Sent<T>)
        ensures
            final(self).offered_since(*old(self), message),
            final(self).fates().last() == r.fate(),
            r matches Sent::Full(back) ==> back == message,
            r matches Sent::Disconnected(back) ==> back == message,
    {
        self.try_send(message)
    }

    /// `Sender::try_send`: puts the message in the channel without waiting, or
    /// hands the same message back. Which of these happens rests on the other
    /// threads; the record gains the message that the call was made with and
    /// what the call said of it, and the end still leads to the same channel.
    #[verifier::external_body]
    fn try_send(&mut self, message: T) -> (r: Sent<T>)
        ensures
            final(self)@ == old(self)@.push(message),
            final(self).fates() == old(self).fates().push(r.fate()),
            final(self).channel() == old(self).channel(),
            final(self).id() == old(self).id(),
            r matches Sent::Full(back) ==> back == message,
            r matches Sent::Disconnected(back) ==> back == message,
    {
        match self.sender.try_send(message) {
            Ok(()) => Sent::Delivered,
            Err(crossbeam_channel::TrySendError::Full(back)) => Sent::Full(back),
            Err(crossbeam_channel::TrySendError::Disconnected(back)) => Sent::Disconnected(back),
        }
    }
}

/// What a channel answered to its receiving end.
pub enum Answer<T> {
    /// Asked for a message: the message, or nothing.
    Message(Option<T>),
    /// Asked whether it is empty.
    Empty(bool),
}

/// A receiving end. Its view is every answer that the channel gave through
/// it, in order.
#[verifier::reject_recursive_types(T)]
pub struct Inbox<T> {
    receiver: crossbeam_channel::Receiver<T>,
    answers: Ghost<Seq<Answer<T>>>,
    id: Ghost<int>,
}

impl<T> View for Inbox<T> {
    type V = Seq<Answer<T>>;

    closed spec fn view(&self) -> Seq<Answer<T>> {
        self.answers@
    }
}

impl<T> Inbox<T> {
    /// Which channel it comes from: the ends of one channel have this in
    /// common.
    pub closed spec fn id(self) -> int {
        self.id@
    }

    /// Since `before`, the channel has been asked exactly once.
    pub open spec fn asked_since(self, before: Inbox<T>) -> bool {
        &&& self@ == before@.push(self@.last())
        &&& self.id() == before.id()
    }

    /// `Receiver::try_recv`: the oldest message in the channel, if there is one
    /// now. Which one that is rests on the other threads; the record gains what
    /// the call gave.
    #[verifier::external_body]
    pub(crate) fn try_recv(&mut self) -> (r: Option<T>)
        ensures
            final(self)@ == old(self)@.push(Answer::Message(r)),
            final(self).id() == old(self).id(),
    {
        self.receiver.try_recv().ok()
    }

    /// `Receiver::is_empty`: whether no message is waiting now, which rests on
    /// the other threads; the record gains what the call said.
    #[verifier::external_body]
    pub(crate) fn is_empty(&mut self) -> (r: bool)
        ensures
            final(self)@ == old(self)@.push(Answer::Empty(r)),
            final(self).id() == old(self).id(),
    {
        self.receiver.is_empty()
    }
}

/// `Sender::clone`: another handle to the same channel. A sender is nothing but
/// a pointer to its channel, and the clone holds the same pointer, so to the
/// contracts it is the same value.
#[verifier::external_body]
fn clone_sender<T>(channel: &crossbeam_channel::Sender<T>) -> (r: crossbeam_channel::Sender<T>)
    ensures
        r == *channel,
{
    channel.clone()
}

/// `crossbeam_channel::unbounded`: the two ends of a new channel without a
/// limit. Both are ends of the same channel, for each is made with the one
/// pointer to it, and nothing has been offered or asked through either. What
/// the channel answers rests on the other threads.
#[verifier::external_body]
pub(crate) fn unbounded<T>() -> (r: (Outbox<T>, Inbox<T>))
    ensures
        r.0.unused(),
        r.1@ == Seq::<Answer<T>>::empty(),
        r.0.id() == r.1.id(),
{
    let (sender, receiver) = crossbeam_channel::unbounded();
    (
        Outbox {
            sender: sender,
            offered: Ghost(Seq::empty()),
            became: Ghost(Seq::empty()),
            id: Ghost(vstd::pervasive::arbitrary()),
        },
        Inbox {
            receiver: receiver,
            answers: Ghost(Seq::empty()),
            id: Ghost(vstd::pervasive::arbitrary()),
        },
    )
}

} // verus!
