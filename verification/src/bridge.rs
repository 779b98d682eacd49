//! The bridge between the preemptive and the cooperative scheduling domain:
//! a typed channel whose two ends may live in different domains.
//!
//! A capacity of zero asks for the unbounded flavor, which never holds the
//! sender back. Any other capacity asks for the bounded flavor, which turns
//! a sender away while the buffer is full. Neither end waits for the other
//! inside this module: a send that would block and a receive that finds
//! nothing say so, and the caller suspends in the way of its own domain
//! before it tries again. The end of the stream is an outcome of its own,
//! not an error.

use crate::partition::ConfigError;
use vstd::prelude::*;

verus! {

/// The largest capacity a bounded bridge can be given: an eighth of the
/// address space, which is the most permits that the bounded channel's
/// semaphore can hold (`usize::MAX >> 3`).
pub const MAX_CAPACITY: usize = usize::MAX / 8;

/// The room that a bounded channel was opened with, as
/// `tokio::sync::mpsc::Sender::max_capacity` reports it. It stays the same
/// for as long as the channel lives.
pub uninterp spec fn room_of(sender: tokio::sync::mpsc::Sender<i32>) -> nat;

/// `std::sync::mpsc::Sender`, the sending half of the standard library's
/// unbounded channel. Nothing is known of what it holds.
#[verifier::external_type_specification]
#[verifier::external_body]
#[verifier::reject_recursive_types(T)]
pub struct ExUnboundedSender<T>(std::sync::mpsc::Sender<T>);

/// `std::sync::mpsc::Receiver`, the receiving half of the standard library's
/// unbounded channel. Nothing is known of what it holds.
#[verifier::external_type_specification]
#[verifier::external_body]
#[verifier::reject_recursive_types(T)]
pub struct ExUnboundedReceiver<T>(std::sync::mpsc::Receiver<T>);

/// `tokio::sync::mpsc::Sender`, the sending half of tokio's bounded channel.
/// Nothing is known of what it holds.
#[verifier::external_type_specification]
#[verifier::external_body]
#[verifier::reject_recursive_types(T)]
pub struct ExBoundedSender<T>(tokio::sync::mpsc::Sender<T>);

/// `tokio::sync::mpsc::Receiver`, the receiving half of tokio's bounded
/// channel. Nothing is known of what it holds.
#[verifier::external_type_specification]
#[verifier::external_body]
#[verifier::reject_recursive_types(T)]
pub struct ExBoundedReceiver<T>(tokio::sync::mpsc::Receiver<T>);

/// The sending end of a bridge.
pub enum BridgeSender {
    Unbounded(std::sync::mpsc::Sender<i32>),
    Bounded(tokio::sync::mpsc::Sender<i32>),
}

/// The receiving end of a bridge.
pub enum BridgeReceiver {
    Unbounded(std::sync::mpsc::Receiver<i32>),
    Bounded(tokio::sync::mpsc::Receiver<i32>),
}

/// What became of a message that was offered to the bridge.
#[derive(Clone, Copy, Debug, PartialEq, Eq, Structural)]
pub enum SendOutcome {
    /// The bridge took the message.
    Delivered,
    /// The buffer is full. The message comes back; offer it again once the
    /// receiver has made room.
    WouldBlock(i32),
    /// The receiving end is gone. The message comes back; no later one will
    /// be taken either.
    Closed(i32),
}

/// What a look at the receiving end found.
#[derive(Clone, Copy, Debug, PartialEq, Eq, Structural)]
pub enum RecvOutcome {
    /// The oldest message not yet received.
    Message(i32),
    /// Nothing is waiting, but the sender is still there.
    Empty,
    /// The sender is gone and every message it sent has been received.
    EndOfStream,
}

/// Opens an unbounded channel with `std::sync::mpsc::channel`.
#[verifier::external_body]
fn open_unbounded() -> (ends: (std::sync::mpsc::Sender<i32>, std::sync::mpsc::Receiver<i32>)) {
    std::sync::mpsc::channel()
}

/// Opens a bounded channel with `tokio::sync::mpsc::channel`, which panics on
/// a capacity of zero and on one above its semaphore's limit, `MAX_CAPACITY`.
/// The channel has the room it was asked for.
#[verifier::external_body]
fn open_bounded(capacity: usize) -> (ends: (
    tokio::sync::mpsc::Sender<i32>,
    tokio::sync::mpsc::Receiver<i32>,
))
    requires
        1 <= capacity <= MAX_CAPACITY,
    ensures
        room_of(ends.0) == capacity,
{
    tokio::sync::mpsc::channel(capacity)
}

/// Asks `tokio::sync::mpsc::Sender::max_capacity` for the room the channel
/// was opened with.
#[verifier::external_body]
fn bounded_room(sender: &tokio::sync::mpsc::Sender<i32>) -> (room: usize)
    ensures
        room == room_of(*sender),
{
    sender.max_capacity()
}

/// Sends with `std::sync::mpsc::Sender::send`, which never blocks. It fails
/// only when the receiver is gone, and then hands the message back.
#[verifier::external_body]
fn send_unbounded(sender: &std::sync::mpsc::Sender<i32>, message: i32) -> (outcome: SendOutcome)
    ensures
        outcome == SendOutcome::Delivered || outcome == SendOutcome::Closed(message),
{
    match sender.send(message) {
        Ok(()) => SendOutcome::Delivered,
        Err(std::sync::mpsc::SendError(back)) => SendOutcome::Closed(back),
    }
}

/// Sends with `tokio::sync::mpsc::Sender::try_send`, which does not wait for
/// room. A full buffer and a closed channel both hand the message back.
#[verifier::external_body]
fn send_bounded(sender: &tokio::sync::mpsc::Sender<i32>, message: i32) -> (outcome: SendOutcome)
    ensures
        outcome == SendOutcome::Delivered || outcome == SendOutcome::WouldBlock(message)
            || outcome == SendOutcome::Closed(message),
{
    match sender.try_send(message) {
        Ok(()) => SendOutcome::Delivered,
        Err(tokio::sync::mpsc::error::TrySendError::Full(back)) => SendOutcome::WouldBlock(back),
        Err(tokio::sync::mpsc::error::TrySendError::Closed(back)) => SendOutcome::Closed(back),
    }
}

/// Receives with `std::sync::mpsc::Receiver::try_recv`, which does not wait
/// for a message to arrive. What it finds depends on what the other end has
/// done.
#[verifier::external_body]
fn recv_unbounded(receiver: &std::sync::mpsc::Receiver<i32>) -> (outcome: RecvOutcome) {
    match receiver.try_recv() {
        Ok(message) => RecvOutcome::Message(message),
        Err(std::sync::mpsc::TryRecvError::Empty) => RecvOutcome::Empty,
        Err(std::sync::mpsc::TryRecvError::Disconnected) => RecvOutcome::EndOfStream,
    }
}

/// Receives with `tokio::sync::mpsc::Receiver::try_recv`, which does not
/// wait for a message to arrive. What it finds depends on what the other end
/// has done.
#[verifier::external_body]
fn recv_bounded(receiver: &mut tokio::sync::mpsc::Receiver<i32>) -> (outcome: RecvOutcome) {
    match receiver.try_recv() {
        Ok(message) => RecvOutcome::Message(message),
        Err(tokio::sync::mpsc::error::TryRecvError::Empty) => RecvOutcome::Empty,
        Err(tokio::sync::mpsc::error::TryRecvError::Disconnected) => RecvOutcome::EndOfStream,
    }
}

/// Number of messages a producer counts as delivered after `outcome`, when
/// it had `delivered` of `total` delivered before.
pub open spec fn delivered_after(delivered: int, total: int, outcome: SendOutcome) -> int {
    if outcome is Delivered && delivered < total {
        delivered + 1
    } else {
        delivered
    }
}

/// The messages a consumer holds after `outcome`.
pub open spec fn received_after(received: Seq<i32>, finished: bool, outcome: RecvOutcome) -> Seq<
    i32,
> {
    match outcome {
        RecvOutcome::Message(message) => if finished {
            received
        } else {
            received.push(message)
        },
        _ => received,
    }
}

/// Whether a consumer has seen the end of the stream after `outcome`.
pub open spec fn finished_after(finished: bool, outcome: RecvOutcome) -> bool {
    finished || outcome is EndOfStream
}

impl BridgeSender {
    /// How many messages the bridge can hold at once: `None` for the
    /// unbounded flavor, the capacity it was opened with for the bounded one.
    pub open spec fn room(self) -> Option<nat> {
        match self {
            BridgeSender::Unbounded(_) => None,
            BridgeSender::Bounded(sender) => Some(room_of(sender)),
        }
    }

    /// How many messages the bridge can hold at once: `None` for the
    /// unbounded flavor, the capacity it was opened with for the bounded one.
    pub fn capacity(&self) -> (room: Option<usize>)
        ensures
            match room {
                Some(count) => self.room() == Some(count as nat),
                None => self.room().is_none(),
            },
    {
        match self {
            BridgeSender::Unbounded(_) => None,
            BridgeSender::Bounded(sender) => Some(bounded_room(sender)),
        }
    }

    /// Offers one message to the bridge without waiting. An unbounded bridge
    /// never turns a message away for want of room. A message that is not
    /// taken comes back unchanged.
    pub fn offer(&self, message: i32) -> (outcome: SendOutcome)
        ensures
            outcome == SendOutcome::Delivered || outcome == SendOutcome::WouldBlock(message)
                || outcome == SendOutcome::Closed(message),
            self is Unbounded ==> !(outcome is WouldBlock),
    {
        match self {
            BridgeSender::Unbounded(sender) => send_unbounded(sender, message),
            BridgeSender::Bounded(sender) => send_bounded(sender, message),
        }
    }
}

impl BridgeReceiver {
    /// Looks for the next message without waiting.
    pub fn poll(&mut self) -> (outcome: RecvOutcome)
        ensures
            (*final(self) is Unbounded) <==> (*old(self) is Unbounded),
    {
        match self {
            BridgeReceiver::Unbounded(receiver) => recv_unbounded(receiver),
            BridgeReceiver::Bounded(receiver) => recv_bounded(receiver),
        }
    }
}

/// Opens a bridge. A capacity of zero gives the unbounded flavor, any other
/// capacity up to `MAX_CAPACITY` the bounded flavor with that much room. A
/// larger capacity, which no bounded channel can have, is rejected.
pub fn bridge_stream(buffer_capacity: usize) -> (outcome: Result<
    (BridgeSender, BridgeReceiver),
    ConfigError,
>)
    ensures
        buffer_capacity > MAX_CAPACITY ==> outcome is Err && outcome->Err_0
            == ConfigError::CapacityTooLarge,
        buffer_capacity == 0 ==> outcome is Ok && outcome->Ok_0.0 is Unbounded
            && outcome->Ok_0.1 is Unbounded,
        0 < buffer_capacity <= MAX_CAPACITY ==> outcome is Ok && outcome->Ok_0.0 is Bounded
            && outcome->Ok_0.1 is Bounded && outcome->Ok_0.0.room() == Some(
            buffer_capacity as nat,
        ),
{
    if buffer_capacity == 0 {
        let (sender, receiver) = open_unbounded();
        Ok((BridgeSender::Unbounded(sender), BridgeReceiver::Unbounded(receiver)))
    } else if buffer_capacity <= MAX_CAPACITY {
        let (sender, receiver) = open_bounded(buffer_capacity);
        Ok((BridgeSender::Bounded(sender), BridgeReceiver::Bounded(receiver)))
    } else {
        Err(ConfigError::CapacityTooLarge)
    }
}

/// Closes the sending end. The receiver still gets every message sent
/// before, and then the end of the stream.
pub fn close(sender: BridgeSender) {
}

/// Why a producer stopped offering messages.
#[derive(Clone, Copy, Debug, PartialEq, Eq, Structural)]
pub enum SendStop {
    /// Every message has been delivered.
    Done,
    /// The buffer is full: suspend, then go on with the same message.
    WouldBlock,
    /// The receiving end is gone: give up.
    Closed,
}

/// A producer's messages and how far it has got with them. A message that
/// the bridge turned away stays the next one to offer, so none is lost and
/// none is sent twice.
pub struct Producer {
    messages: Vec<i32>,
    next: usize,
}

impl Producer {
    /// The messages to send, in order.
    pub closed spec fn messages(self) -> Seq<i32> {
        self.messages@
    }

    /// Number of messages delivered so far.
    pub closed spec fn delivered(self) -> int {
        self.next as int
    }

    /// No more messages are counted as delivered than there are.
    pub closed spec fn wf(self) -> bool {
        self.next <= self.messages@.len()
    }

    /// A producer that has yet to send the first of `messages`.
    pub fn new(messages: Vec<i32>) -> (producer: Producer)
        ensures
            producer.wf(),
            producer.messages() == messages@,
            producer.delivered() == 0,
    {
        Producer { messages, next: 0 }
    }

    /// Number of messages delivered so far.
    pub fn sent(&self) -> (count: usize)
        ensures
            count == self.delivered(),
    {
        self.next
    }

    /// The message to offer next, if any is left.
    pub fn pending(&self) -> (message: Option<i32>)
        requires
            self.wf(),
        ensures
            message == if self.delivered() < self.messages().len() {
                Some(self.messages()[self.delivered()])
            } else {
                None
            },
    {
        if self.next < self.messages.len() {
            Some(self.messages[self.next])
        } else {
            None
        }
    }

    /// Takes in what became of the pending message. A delivery moves on to
    /// the next message; anything else leaves the producer as it was. Gives
    /// the reason to stop, or `None` to go on with the next message.
    pub fn settle(&mut self, outcome: SendOutcome) -> (stop: Option<SendStop>)
        requires
            old(self).wf(),
        ensures
            final(self).wf(),
            final(self).messages() == old(self).messages(),
            final(self).delivered() == delivered_after(
                old(self).delivered(),
                old(self).messages().len() as int,
                outcome,
            ),
            stop == if final(self).delivered() == final(self).messages().len() {
                Some(SendStop::Done)
            } else {
                match outcome {
                    SendOutcome::Delivered => None,
                    SendOutcome::WouldBlock(_) => Some(SendStop::WouldBlock),
                    SendOutcome::Closed(_) => Some(SendStop::Closed),
                }
            },
    {
        if self.next < self.messages.len() {
            match outcome {
                SendOutcome::Delivered => {
                    self.next = self.next + 1;
                    if self.next == self.messages.len() {
                        Some(SendStop::Done)
                    } else {
                        None
                    }
                },
                SendOutcome::WouldBlock(_) => Some(SendStop::WouldBlock),
                SendOutcome::Closed(_) => Some(SendStop::Closed),
            }
        } else {
            Some(SendStop::Done)
        }
    }

    /// Offers the messages not yet delivered, in order, until the bridge
    /// turns one away or none is left. Each time it offers the pending
    /// message and settles what became of it.
    pub fn pump(&mut self, sender: &BridgeSender) -> (stop: SendStop)
        requires
            old(self).wf(),
        ensures
            final(self).wf(),
            final(self).messages() == old(self).messages(),
            old(self).delivered() <= final(self).delivered() <= final(self).messages().len(),
            stop is Done <==> final(self).delivered() == final(self).messages().len(),
            sender is Unbounded ==> !(stop is WouldBlock),
    {
        loop
            invariant
                self.messages@ == old(self).messages@,
                old(self).next <= self.next <= self.messages@.len(),
            decreases self.messages@.len() - self.next,
        {
            match self.pending() {
                None => {
                    return SendStop::Done;
                },
                Some(message) => {
                    let outcome = sender.offer(message);
                    match self.settle(outcome) {
                        None => {},
                        Some(stop) => {
                            return stop;
                        },
                    }
                },
            }
        }
    }
}

/// What a consumer does after a look at the receiving end.
#[derive(Clone, Copy, Debug, PartialEq, Eq, Structural)]
pub enum ConsumerAction {
    /// A message was taken in: look again.
    Continue,
    /// Nothing is waiting: suspend until the sender has done something.
    Suspend,
    /// The stream has ended: stop for good.
    Stop,
}

/// A consumer's messages so far, in the order of their arrival, and whether
/// it has seen the end of the stream.
pub struct Consumer {
    received: Vec<i32>,
    finished: bool,
}

impl Consumer {
    /// The messages received so far, oldest first.
    pub closed spec fn received(self) -> Seq<i32> {
        self.received@
    }

    /// The consumer has seen the end of the stream.
    pub closed spec fn finished(self) -> bool {
        self.finished
    }

    /// A consumer that has received nothing yet.
    pub fn new() -> (consumer: Consumer)
        ensures
            consumer.received() == Seq::<i32>::empty(),
            !consumer.finished(),
    {
        Consumer { received: Vec::new(), finished: false }
    }

    /// Tells whether the consumer has seen the end of the stream.
    pub fn is_finished(&self) -> (finished: bool)
        ensures
            finished == self.finished(),
    {
        self.finished
    }

    /// The messages received so far, oldest first.
    pub fn messages(&self) -> (messages: &Vec<i32>)
        ensures
            messages@ == self.received(),
    {
        &self.received
    }

    /// Takes in what a look at the receiving end found. A message is kept
    /// behind those received before. The end of the stream is final: what
    /// comes after it is ignored.
    pub fn accept(&mut self, outcome: RecvOutcome) -> (action: ConsumerAction)
        ensures
            final(self).received() == received_after(
                old(self).received(),
                old(self).finished(),
                outcome,
            ),
            final(self).finished() == finished_after(old(self).finished(), outcome),
            action == if final(self).finished() {
                ConsumerAction::Stop
            } else if outcome is Empty {
                ConsumerAction::Suspend
            } else {
                ConsumerAction::Continue
            },
    {
        if self.finished {
            return ConsumerAction::Stop;
        }
        match outcome {
            RecvOutcome::Message(message) => {
                self.received.push(message);
                ConsumerAction::Continue
            },
            RecvOutcome::Empty => ConsumerAction::Suspend,
            RecvOutcome::EndOfStream => {
                self.finished = true;
                ConsumerAction::Stop
            },
        }
    }

    /// Takes in the messages that are waiting, at most `limit` of them.
    /// Stops early when nothing is waiting or the stream has ended. A
    /// consumer that has seen the end of the stream stops at once, and one
    /// that has not goes on exactly when it took in as many as the limit
    /// allows.
    pub fn drain(&mut self, receiver: &mut BridgeReceiver, limit: usize) -> (action: ConsumerAction)
        ensures
            old(self).received().is_prefix_of(final(self).received()),
            final(self).received().len() - old(self).received().len() <= limit,
            action is Continue ==> final(self).received().len() - old(self).received().len()
                == limit,
            action is Stop <==> final(self).finished(),
            old(self).finished() ==> final(self).finished() && action is Stop,
            old(self).finished() ==> final(self).received() == old(self).received(),
            !old(self).finished() ==> (action is Continue <==> final(self).received().len() - old(
                self,
            ).received().len() == limit),
            (*final(receiver) is Unbounded) <==> (*old(receiver) is Unbounded),
    {
        if self.finished {
            return ConsumerAction::Stop;
        }
        let mut taken: usize = 0;
        while taken < limit
            invariant
                taken <= limit,
                !self.finished,
                !old(self).finished,
                old(self).received@.is_prefix_of(self.received@),
                self.received@.len() == old(self).received@.len() + taken,
                (*receiver is Unbounded) <==> (*old(receiver) is Unbounded),
            decreases limit - taken,
        {
            let outcome = receiver.poll();
            match self.accept(outcome) {
                ConsumerAction::Continue => {
                    taken = taken + 1;
                },
                ConsumerAction::Suspend => {
                    return ConsumerAction::Suspend;
                },
                ConsumerAction::Stop => {
                    return ConsumerAction::Stop;
                },
            }
        }
        ConsumerAction::Continue
    }
}

} // verus!
