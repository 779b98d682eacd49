use concurrent_batch::bridge::{
    bridge_stream, close, BridgeReceiver, BridgeSender, Consumer, ConsumerAction, Producer,
    RecvOutcome, SendOutcome, SendStop, MAX_CAPACITY,
};
use concurrent_batch::partition::ConfigError;

#[test]
fn zero_capacity_is_unbounded() {
    let (sender, receiver) = bridge_stream(0).ok().unwrap();
    assert!(matches!(sender, BridgeSender::Unbounded(_)));
    assert!(matches!(receiver, BridgeReceiver::Unbounded(_)));
}

#[test]
fn positive_capacity_is_bounded() {
    let (sender, receiver) = bridge_stream(10).ok().unwrap();
    assert!(matches!(sender, BridgeSender::Bounded(_)));
    assert!(matches!(receiver, BridgeReceiver::Bounded(_)));
    assert!(bridge_stream(MAX_CAPACITY).is_ok());
}

#[test]
fn largest_capacity_is_the_channel_limit() {
    assert_eq!(MAX_CAPACITY, usize::MAX >> 3);
    assert_eq!(MAX_CAPACITY, tokio::sync::Semaphore::MAX_PERMITS);
    let (sender, _receiver) = bridge_stream(MAX_CAPACITY).ok().unwrap();
    assert_eq!(sender.capacity(), Some(MAX_CAPACITY));
}

#[test]
fn bounded_bridge_has_the_room_asked_for() {
    for capacity in [1usize, 2, 7, 10, 1000] {
        let (sender, _receiver) = bridge_stream(capacity).ok().unwrap();
        assert_eq!(sender.capacity(), Some(capacity));
        let mut taken: usize = 0;
        while sender.offer(0) == SendOutcome::Delivered {
            taken += 1;
            assert!(taken <= capacity);
        }
        assert_eq!(taken, capacity);
        assert_eq!(sender.capacity(), Some(capacity));
    }
}

#[test]
fn unbounded_bridge_has_no_capacity() {
    let (sender, _receiver) = bridge_stream(0).ok().unwrap();
    assert_eq!(sender.capacity(), None);
}

#[test]
fn finished_consumer_stops_whatever_the_limit() {
    let (sender, mut receiver) = bridge_stream(3).ok().unwrap();
    assert_eq!(sender.offer(1), SendOutcome::Delivered);
    close(sender);
    let mut consumer = Consumer::new();
    assert_eq!(consumer.drain(&mut receiver, 0), ConsumerAction::Continue);
    assert!(consumer.messages().is_empty());
    assert_eq!(consumer.drain(&mut receiver, 5), ConsumerAction::Stop);
    assert_eq!(consumer.messages(), &vec![1]);
    assert_eq!(consumer.drain(&mut receiver, 0), ConsumerAction::Stop);
    assert_eq!(consumer.drain(&mut receiver, 5), ConsumerAction::Stop);
    assert_eq!(consumer.messages(), &vec![1]);
    assert!(consumer.is_finished());
}

#[test]
fn pump_offers_the_pending_message_each_time() {
    let (sender, mut receiver) = bridge_stream(2).ok().unwrap();
    let mut producer = Producer::new(vec![10, 20, 30, 40, 50]);
    let mut arrived: Vec<i32> = Vec::new();
    loop {
        let stop = producer.pump(&sender);
        while let RecvOutcome::Message(message) = receiver.poll() {
            arrived.push(message);
        }
        if stop == SendStop::Done {
            break;
        }
        assert_eq!(stop, SendStop::WouldBlock);
    }
    assert_eq!(arrived, vec![10, 20, 30, 40, 50]);
}

#[test]
fn oversized_capacity_is_rejected() {
    assert_eq!(bridge_stream(MAX_CAPACITY + 1).err(), Some(ConfigError::CapacityTooLarge));
    assert_eq!(bridge_stream(usize::MAX).err(), Some(ConfigError::CapacityTooLarge));
}

fn round_trip(capacity: usize) {
    let (sender, mut receiver) = bridge_stream(capacity).ok().unwrap();
    let messages: Vec<i32> = (0..10).collect();
    let mut producer = Producer::new(messages.clone());
    assert_eq!(producer.pump(&sender), SendStop::Done);
    assert_eq!(producer.sent(), 10);
    close(sender);
    let mut consumer = Consumer::new();
    assert_eq!(consumer.drain(&mut receiver, 100), ConsumerAction::Stop);
    assert!(consumer.is_finished());
    assert_eq!(consumer.messages(), &vec![0, 1, 2, 3, 4, 5, 6, 7, 8, 9]);
    // The end of the stream stays the end of the stream.
    assert_eq!(receiver.poll(), RecvOutcome::EndOfStream);
    assert_eq!(consumer.drain(&mut receiver, 100), ConsumerAction::Stop);
    assert_eq!(consumer.messages().len(), 10);
}

#[test]
fn round_trip_through_unbounded_bridge() {
    round_trip(0);
}

#[test]
fn round_trip_through_bounded_bridge() {
    round_trip(10);
    round_trip(64);
}

#[test]
fn message_by_message_then_end_of_stream() {
    let (sender, mut receiver) = bridge_stream(0).ok().unwrap();
    for i in 0..10 {
        assert_eq!(sender.offer(i), SendOutcome::Delivered);
    }
    close(sender);
    for i in 0..10 {
        assert_eq!(receiver.poll(), RecvOutcome::Message(i));
    }
    assert_eq!(receiver.poll(), RecvOutcome::EndOfStream);
}

#[test]
fn full_buffer_holds_the_sender_back() {
    let (sender, mut receiver) = bridge_stream(1).ok().unwrap();
    let mut producer = Producer::new(vec![7, 8, 9]);
    let mut consumer = Consumer::new();

    assert_eq!(producer.pump(&sender), SendStop::WouldBlock);
    assert_eq!(producer.sent(), 1);
    assert_eq!(producer.pump(&sender), SendStop::WouldBlock);
    assert_eq!(producer.sent(), 1);

    assert_eq!(consumer.drain(&mut receiver, 10), ConsumerAction::Suspend);
    assert_eq!(consumer.messages(), &vec![7]);

    assert_eq!(producer.pump(&sender), SendStop::WouldBlock);
    assert_eq!(producer.sent(), 2);
    assert_eq!(consumer.drain(&mut receiver, 10), ConsumerAction::Suspend);
    assert_eq!(consumer.messages(), &vec![7, 8]);

    assert_eq!(producer.pump(&sender), SendStop::Done);
    assert_eq!(producer.sent(), 3);
    close(sender);
    assert_eq!(consumer.drain(&mut receiver, 10), ConsumerAction::Stop);
    assert_eq!(consumer.messages(), &vec![7, 8, 9]);
    assert!(consumer.is_finished());
}

#[test]
fn offer_hands_back_what_it_could_not_send() {
    let (sender, receiver) = bridge_stream(2).ok().unwrap();
    assert_eq!(sender.offer(1), SendOutcome::Delivered);
    assert_eq!(sender.offer(2), SendOutcome::Delivered);
    assert_eq!(sender.offer(3), SendOutcome::WouldBlock(3));
    drop(receiver);
    assert_eq!(sender.offer(4), SendOutcome::Closed(4));
}

#[test]
fn unbounded_sender_is_never_held_back() {
    let (sender, mut receiver) = bridge_stream(0).ok().unwrap();
    let messages: Vec<i32> = (0..5000).collect();
    let mut producer = Producer::new(messages.clone());
    assert_eq!(producer.pump(&sender), SendStop::Done);
    let mut consumer = Consumer::new();
    assert_eq!(consumer.drain(&mut receiver, 10_000), ConsumerAction::Suspend);
    assert_eq!(consumer.messages(), &messages);
    assert!(!consumer.is_finished());
    drop(receiver);
    assert_eq!(sender.offer(1), SendOutcome::Closed(1));
}

#[test]
fn producer_gives_up_when_the_receiver_is_gone() {
    for capacity in [0usize, 3] {
        let (sender, receiver) = bridge_stream(capacity).ok().unwrap();
        drop(receiver);
        let mut producer = Producer::new(vec![1, 2, 3]);
        assert_eq!(producer.pump(&sender), SendStop::Closed);
        assert_eq!(producer.sent(), 0);
    }
}

#[test]
fn empty_bridge_suspends_the_consumer() {
    for capacity in [0usize, 1] {
        let (sender, mut receiver) = bridge_stream(capacity).ok().unwrap();
        let mut consumer = Consumer::new();
        assert_eq!(receiver.poll(), RecvOutcome::Empty);
        assert_eq!(consumer.drain(&mut receiver, 5), ConsumerAction::Suspend);
        assert!(consumer.messages().is_empty());
        close(sender);
        assert_eq!(consumer.drain(&mut receiver, 5), ConsumerAction::Stop);
    }
}

#[test]
fn drain_stops_at_its_limit() {
    let (sender, mut receiver) = bridge_stream(8).ok().unwrap();
    let mut producer = Producer::new(vec![1, 2, 3, 4, 5]);
    assert_eq!(producer.pump(&sender), SendStop::Done);
    let mut consumer = Consumer::new();
    assert_eq!(consumer.drain(&mut receiver, 2), ConsumerAction::Continue);
    assert_eq!(consumer.messages(), &vec![1, 2]);
    assert_eq!(consumer.drain(&mut receiver, 0), ConsumerAction::Continue);
    assert_eq!(consumer.drain(&mut receiver, 3), ConsumerAction::Continue);
    assert_eq!(consumer.messages(), &vec![1, 2, 3, 4, 5]);
    assert_eq!(consumer.drain(&mut receiver, 1), ConsumerAction::Suspend);
}

#[test]
fn messages_sent_before_close_still_arrive() {
    let (sender, mut receiver) = bridge_stream(4).ok().unwrap();
    assert_eq!(sender.offer(41), SendOutcome::Delivered);
    assert_eq!(sender.offer(42), SendOutcome::Delivered);
    close(sender);
    assert_eq!(receiver.poll(), RecvOutcome::Message(41));
    assert_eq!(receiver.poll(), RecvOutcome::Message(42));
    assert_eq!(receiver.poll(), RecvOutcome::EndOfStream);
}

#[test]
fn consumer_decisions() {
    let mut consumer = Consumer::new();
    assert_eq!(consumer.accept(RecvOutcome::Empty), ConsumerAction::Suspend);
    assert_eq!(consumer.accept(RecvOutcome::Message(3)), ConsumerAction::Continue);
    assert_eq!(consumer.accept(RecvOutcome::Message(1)), ConsumerAction::Continue);
    assert_eq!(consumer.accept(RecvOutcome::Empty), ConsumerAction::Suspend);
    assert!(!consumer.is_finished());
    assert_eq!(consumer.accept(RecvOutcome::EndOfStream), ConsumerAction::Stop);
    assert!(consumer.is_finished());
    assert_eq!(consumer.accept(RecvOutcome::Message(9)), ConsumerAction::Stop);
    assert_eq!(consumer.accept(RecvOutcome::Empty), ConsumerAction::Stop);
    assert_eq!(consumer.messages(), &vec![3, 1]);
}

#[test]
fn empty_producer_is_done_at_once() {
    let (sender, _receiver) = bridge_stream(1).ok().unwrap();
    let mut producer = Producer::new(Vec::new());
    assert_eq!(producer.pump(&sender), SendStop::Done);
    assert_eq!(producer.sent(), 0);
}

#[test]
fn producer_decisions() {
    let mut producer = Producer::new(vec![5, 6]);
    assert_eq!(producer.pending(), Some(5));
    assert_eq!(producer.settle(SendOutcome::WouldBlock(5)), Some(SendStop::WouldBlock));
    assert_eq!(producer.pending(), Some(5));
    assert_eq!(producer.sent(), 0);
    assert_eq!(producer.settle(SendOutcome::Delivered), None);
    assert_eq!(producer.pending(), Some(6));
    assert_eq!(producer.sent(), 1);
    assert_eq!(producer.settle(SendOutcome::Closed(6)), Some(SendStop::Closed));
    assert_eq!(producer.sent(), 1);
    assert_eq!(producer.settle(SendOutcome::Delivered), Some(SendStop::Done));
    assert_eq!(producer.sent(), 2);
    assert_eq!(producer.pending(), None);
    assert_eq!(producer.settle(SendOutcome::Delivered), Some(SendStop::Done));
    assert_eq!(producer.settle(SendOutcome::WouldBlock(0)), Some(SendStop::Done));
    assert_eq!(producer.sent(), 2);
}
