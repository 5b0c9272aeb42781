//! The consumer delivery pipeline: stream polling, wakes, cancellation,
//! errors, delegates, and prefetched-message handling.

use std::cell::RefCell;

use amqp_core::consumer::{Consumer, ConsumerDelegate, ConsumerPoll, Delivery, DeliveryOutcome};
use amqp_core::error::Error;

fn delivery(tag: u64, body: &[u8]) -> Delivery {
    let mut d = Delivery::new(tag, String::from(""), String::from("q"), false);
    d.body_size = body.len() as u64;
    d.body = body.to_vec();
    d
}

#[test]
fn stream_on_cancel() {
    let mut consumer = Consumer::new(String::from("test-consumer"));

    assert_eq!(consumer.wake_count(), 0);
    assert_eq!(consumer.poll_next(), ConsumerPoll::Pending);

    consumer.cancel();

    assert_eq!(consumer.wake_count(), 1);
    assert_eq!(consumer.poll_next(), ConsumerPoll::Ready(None));
}

#[test]
fn stream_on_error() {
    let mut consumer = Consumer::new(String::from("test-consumer"));

    assert_eq!(consumer.wake_count(), 0);
    assert_eq!(consumer.poll_next(), ConsumerPoll::Pending);

    consumer.set_error(Error::ChannelsLimitReached);

    assert_eq!(consumer.wake_count(), 1);
    assert_eq!(
        consumer.poll_next(),
        ConsumerPoll::Ready(Some(Err(Error::ChannelsLimitReached)))
    );
}

#[test]
fn assembly_completes_delivery() {
    let mut consumer = Consumer::new(String::from("tag-1"));
    consumer.start_new_delivery(Delivery::new(7, String::from("ex"), String::from("rk"), true));
    let mut props = amqp_core::frame::BasicProperties::new();
    props.content_type = Some(String::from("text/plain"));
    consumer.set_delivery_properties(props.clone());
    consumer.set_delivery_size(5);
    consumer.receive_delivery_content(b"hel".to_vec());
    consumer.receive_delivery_content(b"lo".to_vec());
    consumer.new_delivery_complete();

    assert!(consumer.current_message.is_none());
    assert_eq!(consumer.deliveries.len(), 1);
    match &consumer.deliveries[0] {
        DeliveryOutcome::Delivered(m) => {
            assert_eq!(m.delivery_tag, 7);
            assert_eq!(m.exchange, "ex");
            assert_eq!(m.routing_key, "rk");
            assert!(m.redelivered);
            assert_eq!(m.body, b"hello");
            assert_eq!(m.body_size, 5);
            assert_eq!(m.properties, props);
        }
        other => panic!("expected a delivered message, got {:?}", other),
    }
}

#[test]
fn prefetched_messages_accumulate_then_drain() {
    // The subscriber side stops pulling after one delivery: later deliveries
    // accumulate until they are dropped, and cancelling still works.
    let mut consumer = Consumer::new(String::from("tag-1"));

    consumer.start_new_delivery(delivery(1, b"a"));
    consumer.new_delivery_complete();
    let first = consumer.next_delivery();
    assert!(matches!(first, Some(DeliveryOutcome::Delivered(_))));

    consumer.start_new_delivery(delivery(2, b"b"));
    consumer.new_delivery_complete();
    consumer.start_new_delivery(delivery(3, b"c"));
    consumer.new_delivery_complete();
    assert_eq!(consumer.deliveries.len(), 2);

    consumer.drop_prefetched_messages();
    assert_eq!(consumer.deliveries.len(), 0);

    consumer.cancel();
    assert_eq!(consumer.deliveries.len(), 1);
    assert_eq!(consumer.next_delivery(), Some(DeliveryOutcome::Canceled));
}

struct RecordingDelegate {
    seen: RefCell<Vec<u64>>,
}

impl ConsumerDelegate for RecordingDelegate {
    fn on_new_delivery(&self, outcome: &DeliveryOutcome) {
        if let DeliveryOutcome::Delivered(m) = outcome {
            self.seen.borrow_mut().push(m.delivery_tag);
        }
    }
}

#[test]
fn delegate_takes_queued_and_later_deliveries() {
    let mut consumer = Consumer::new(String::from("tag-1"));
    consumer.start_new_delivery(delivery(1, b"a"));
    consumer.new_delivery_complete();
    consumer.start_new_delivery(delivery(2, b"b"));
    consumer.new_delivery_complete();

    // Installing the delegate flushes what was already queued, in order, so
    // nothing is lost on the hand-off.
    let delegate = RecordingDelegate { seen: RefCell::new(Vec::new()) };
    consumer.set_delegate(&delegate);
    assert_eq!(*delegate.seen.borrow(), vec![1, 2]);
    assert_eq!(consumer.deliveries.len(), 0);
    assert_eq!(consumer.delegated.len(), 2);

    // A later delivery is routed to the delegate queue, not the pull queue.
    consumer.start_new_delivery(delivery(3, b"c"));
    consumer.new_delivery_complete();
    assert_eq!(consumer.deliveries.len(), 0);
    assert_eq!(consumer.delegated.len(), 3);
}

#[test]
fn poll_after_delivery_hands_message_out() {
    let mut consumer = Consumer::new(String::from("tag-1"));
    assert_eq!(consumer.poll_next(), ConsumerPoll::Pending);

    consumer.start_new_delivery(delivery(9, b"xyz"));
    consumer.new_delivery_complete();
    // Completion while a task is registered wakes it.
    assert_eq!(consumer.wake_count(), 1);

    match consumer.poll_next() {
        ConsumerPoll::Ready(Some(Ok(m))) => {
            assert_eq!(m.delivery_tag, 9);
            assert_eq!(m.body, b"xyz");
        }
        other => panic!("expected a ready delivery, got {:?}", other),
    }
}
