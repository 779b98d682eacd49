//! What the producer and the consumer make of a well-behaved bridge.
//!
//! Here the bridge is taken to be what its flavors promise: a first-in,
//! first-out buffer that turns the sender away while it is full, and that
//! tells the receiver of the end of the stream only when the sender has
//! closed and nothing is left in it. Against such a bridge, and under every
//! schedule of the two sides' turns, the consumer receives the producer's
//! messages in order, none lost and none twice, and the buffer never holds
//! more than its capacity.

use crate::bridge::{delivered_after, finished_after, received_after, RecvOutcome, SendOutcome};
use vstd::prelude::*;

verus! {

/// Whose turn it is.
pub enum Turn {
    /// The producer offers its pending message, if it has one.
    Produce,
    /// The consumer looks at the receiving end.
    Consume,
    /// The sending end is closed.
    Close,
}

/// The two sides and what is in flight between them.
pub struct Exchange {
    /// Number of messages the producer counts as delivered.
    pub delivered: int,
    /// Messages taken by the bridge and not yet received, oldest first.
    pub buffer: Seq<i32>,
    /// The sending end has not been closed.
    pub open: bool,
    /// Messages the consumer holds, oldest first.
    pub received: Seq<i32>,
    /// The consumer has seen the end of the stream.
    pub finished: bool,
}

/// The exchange before either side has had a turn.
pub open spec fn start() -> Exchange {
    Exchange { delivered: 0, buffer: Seq::empty(), open: true, received: Seq::empty(), finished: false }
}

/// The buffer has room for one more message. A capacity of zero stands for
/// the unbounded flavor.
pub open spec fn has_room(buffer: Seq<i32>, capacity: nat) -> bool {
    capacity == 0 || buffer.len() < capacity
}

/// What the bridge answers to the offer of `message`.
pub open spec fn offer_outcome(buffer: Seq<i32>, capacity: nat, message: i32) -> SendOutcome {
    if has_room(buffer, capacity) {
        SendOutcome::Delivered
    } else {
        SendOutcome::WouldBlock(message)
    }
}

/// What the bridge shows to a look at its receiving end.
pub open spec fn poll_outcome(buffer: Seq<i32>, open: bool) -> RecvOutcome {
    if buffer.len() > 0 {
        RecvOutcome::Message(buffer[0])
    } else if open {
        RecvOutcome::Empty
    } else {
        RecvOutcome::EndOfStream
    }
}

/// The exchange after one turn.
pub open spec fn step(state: Exchange, turn: Turn, messages: Seq<i32>, capacity: nat) -> Exchange {
    match turn {
        Turn::Produce => if state.open && 0 <= state.delivered < messages.len() {
            let message = messages[state.delivered];
            let outcome = offer_outcome(state.buffer, capacity, message);
            Exchange {
                delivered: delivered_after(state.delivered, messages.len() as int, outcome),
                buffer: if outcome is Delivered {
                    state.buffer.push(message)
                } else {
                    state.buffer
                },
                ..state
            }
        } else {
            state
        },
        Turn::Consume => {
            let outcome = poll_outcome(state.buffer, state.open);
            Exchange {
                buffer: if outcome is Message {
                    state.buffer.drop_first()
                } else {
                    state.buffer
                },
                received: received_after(state.received, state.finished, outcome),
                finished: finished_after(state.finished, outcome),
                ..state
            }
        },
        Turn::Close => Exchange { open: false, ..state },
    }
}

/// The exchange after the whole schedule.
pub open spec fn run(turns: Seq<Turn>, messages: Seq<i32>, capacity: nat) -> Exchange
    decreases turns.len(),
{
    if turns.len() == 0 {
        start()
    } else {
        step(run(turns.drop_last(), messages, capacity), turns.last(), messages, capacity)
    }
}

/// Nothing is lost, nothing is sent twice, and the order is kept: at every
/// moment the messages received, followed by those in flight, are exactly
/// the messages delivered so far. The buffer never exceeds its capacity, and
/// once the consumer has seen the end of the stream it holds every message
/// that was delivered.
pub proof fn lemma_nothing_lost_or_duplicated(turns: Seq<Turn>, messages: Seq<i32>, capacity: nat)
    ensures
        ({
            let state = run(turns, messages, capacity);
            &&& 0 <= state.delivered <= messages.len()
            &&& state.received + state.buffer == messages.take(state.delivered)
            &&& capacity > 0 ==> state.buffer.len() <= capacity
            &&& state.finished ==> !state.open && state.received == messages.take(state.delivered)
        }),
    decreases turns.len(),
{
    if turns.len() == 0 {
        assert(start().received + start().buffer =~= messages.take(0));
    } else {
        lemma_nothing_lost_or_duplicated(turns.drop_last(), messages, capacity);
        let before = run(turns.drop_last(), messages, capacity);
        let after = run(turns, messages, capacity);
        assert(after == step(before, turns.last(), messages, capacity));
        match turns.last() {
            Turn::Produce => {
                if before.open && before.delivered < messages.len() && has_room(
                    before.buffer,
                    capacity,
                ) {
                    assert(before.received + before.buffer.push(messages[before.delivered])
                        =~= messages.take(before.delivered + 1)) by {
                        assert(messages.take(before.delivered + 1) =~= messages.take(
                            before.delivered,
                        ).push(messages[before.delivered]));
                    }
                }
            },
            Turn::Consume => {
                if before.buffer.len() > 0 {
                    if before.finished {
                        assert(before.received =~= messages.take(before.delivered));
                        assert(before.received + before.buffer =~= before.received);
                    } else {
                        assert(before.received.push(before.buffer[0]) + before.buffer.drop_first()
                            =~= before.received + before.buffer);
                    }
                } else {
                    assert(before.received + before.buffer =~= before.received);
                }
            },
            Turn::Close => {},
        }
    }
}

/// A producer that closes only after its last message was delivered is
/// received in full: a consumer that has seen the end of the stream holds
/// exactly the producer's messages, in their order.
pub proof fn lemma_stream_received_in_full(turns: Seq<Turn>, messages: Seq<i32>, capacity: nat)
    requires
        closes_when_done(turns, messages, capacity),
        run(turns, messages, capacity).finished,
    ensures
        run(turns, messages, capacity).received == messages,
    decreases turns.len(),
{
    lemma_nothing_lost_or_duplicated(turns, messages, capacity);
    lemma_closed_means_done(turns, messages, capacity);
    assert(messages.take(messages.len() as int) =~= messages);
}

/// Every `Close` in the schedule comes when the producer has nothing left to
/// send.
pub open spec fn closes_when_done(turns: Seq<Turn>, messages: Seq<i32>, capacity: nat) -> bool {
    forall|k: int|
        0 <= k < turns.len() && #[trigger] turns[k] is Close ==> run(
            turns.take(k),
            messages,
            capacity,
        ).delivered == messages.len()
}

/// Under such a schedule a closed sending end means every message was
/// delivered.
proof fn lemma_closed_means_done(turns: Seq<Turn>, messages: Seq<i32>, capacity: nat)
    requires
        closes_when_done(turns, messages, capacity),
    ensures
        !run(turns, messages, capacity).open ==> run(turns, messages, capacity).delivered
            == messages.len(),
    decreases turns.len(),
{
    if turns.len() > 0 {
        let shorter = turns.drop_last();
        assert(closes_when_done(shorter, messages, capacity)) by {
            assert forall|k: int| 0 <= k < shorter.len() && #[trigger] shorter[k] is Close implies run(
                shorter.take(k),
                messages,
                capacity,
            ).delivered == messages.len() by {
                assert(turns[k] is Close);
                assert(shorter.take(k) =~= turns.take(k));
            }
        }
        lemma_closed_means_done(shorter, messages, capacity);
        lemma_nothing_lost_or_duplicated(shorter, messages, capacity);
        if turns.last() is Close {
            assert(turns[turns.len() - 1] is Close);
            assert(turns.take(turns.len() - 1) =~= shorter);
        }
    }
}

} // verus!
