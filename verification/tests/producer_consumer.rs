use classic_sync::producer_consumer_channels::{
    Channel, Consumer as ChannelConsumer, ConsumerAction, Producer as ChannelProducer, RecvOutcome,
};
use classic_sync::producer_consumer_monitor::{Buffer, Consumer, Producer};

#[test]
fn buffer_blocks_producers_when_full() {
    let mut b = Buffer::new(2);
    let p = Producer::new(10);
    assert!(p.produce(&mut b));
    assert!(b.producer_access_buffer(20));
    assert!(!p.produce(&mut b));
    assert_eq!(b.items().iter().copied().collect::<Vec<_>>(), vec![10, 20]);
}

#[test]
fn buffer_is_first_in_first_out() {
    let mut b = Buffer::new(3);
    let c = Consumer::new();
    assert_eq!(c.consume(&mut b), None);
    b.producer_access_buffer(1);
    b.producer_access_buffer(2);
    assert_eq!(c.consume(&mut b), Some(1));
    b.producer_access_buffer(3);
    assert_eq!(b.consumer_access_buffer(), Some(2));
    assert_eq!(b.consumer_access_buffer(), Some(3));
    assert_eq!(b.consumer_access_buffer(), None);
}

#[test]
fn zero_capacity_buffer_takes_nothing() {
    let mut b = Buffer::new(0);
    assert!(!b.producer_access_buffer(1));
    assert!(b.items().is_empty());
}

#[test]
fn channel_delivers_in_order_then_disconnects() {
    let mut ch = Channel::new();
    ch.add_sender();
    assert_eq!(ch.senders(), 2);
    ChannelProducer::new(0, 7).produce(&mut ch);
    ch.send(8);
    assert_eq!(ch.recv(), RecvOutcome::Message(7));
    ch.drop_sender();
    ch.drop_sender();
    assert_eq!(ch.recv(), RecvOutcome::Message(8));
    assert_eq!(ch.recv(), RecvOutcome::Disconnected);
    assert_eq!(ch.recv(), RecvOutcome::Disconnected);
}

#[test]
fn channel_with_a_sender_makes_receiver_wait() {
    let mut ch = Channel::new();
    assert_eq!(ch.recv(), RecvOutcome::Empty);
}

#[test]
fn consumer_steps() {
    let mut ch = Channel::new();
    let c = ChannelConsumer::new(1);
    assert_eq!(c.id, 1);
    assert_eq!(c.consume_step(&mut ch), ConsumerAction::Wait);
    ch.send(3);
    assert_eq!(c.consume_step(&mut ch), ConsumerAction::Consume(3));
    ch.drop_sender();
    assert_eq!(c.consume_step(&mut ch), ConsumerAction::Exit);
}

#[test]
fn channel_producer_keeps_its_fields() {
    let p = ChannelProducer::new(2, 9);
    assert_eq!((p.id, p.data), (2, 9));
}

#[test]
fn interleaved_buffer_keeps_order() {
    let mut b = Buffer::new(2);
    assert!(b.producer_access_buffer(1));
    assert!(b.producer_access_buffer(2));
    assert!(!b.producer_access_buffer(3));
    assert_eq!(b.consumer_access_buffer(), Some(1));
    assert!(b.producer_access_buffer(4));
    assert_eq!(b.items().iter().copied().collect::<Vec<_>>(), vec![2, 4]);
    assert_eq!(b.consumer_access_buffer(), Some(2));
    assert_eq!(b.consumer_access_buffer(), Some(4));
}

#[test]
fn interleaved_channel_delivers_everything_once() {
    let mut ch = Channel::new();
    ch.send(1);
    assert_eq!(ch.recv(), RecvOutcome::Message(1));
    ch.send(2);
    ch.send(3);
    assert_eq!(ch.recv(), RecvOutcome::Message(2));
    ch.drop_sender();
    assert_eq!(ch.recv(), RecvOutcome::Message(3));
    assert_eq!(ch.recv(), RecvOutcome::Disconnected);
}
