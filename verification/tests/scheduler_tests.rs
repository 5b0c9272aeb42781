//! The four-lane frame scheduler: priorities, the publish-run migration that
//! keeps a publish contiguous, flow control, and resolver cleanup.

use amqp_core::error::Error;
use amqp_core::frame::{BasicProperties, Frame, Method};
use amqp_core::frames::{Frames, QueuedFrame};
use amqp_core::promise::{PromiseState, PromiseStore};

fn method_frame(ch: u16) -> Frame {
    Frame::Method(ch, Method::BasicRecoverOk)
}

fn publish_batch(ch: u16, bodies: &[&[u8]]) -> Vec<Frame> {
    let total: usize = bodies.iter().map(|b| b.len()).sum();
    let mut batch = vec![
        Frame::Method(
            ch,
            Method::BasicPublish {
                ticket: 0,
                exchange: String::from(""),
                routing_key: String::from("q"),
                mandatory: false,
                immediate: false,
            },
        ),
        Frame::Header(ch, 60, total as u64, BasicProperties::new()),
    ];
    for b in bodies {
        batch.push(Frame::Body(ch, b.to_vec()));
    }
    batch
}

#[test]
fn lanes_pop_in_priority_order() {
    let mut frames = Frames::new();
    let mut promises = PromiseStore::new();
    let p1 = promises.create();
    frames.push(method_frame(1), p1);
    let p2 = promises.create();
    frames.retry(QueuedFrame { frame: Frame::Heartbeat(0), resolver: Some(p2) });
    let _pid = frames.push_frames(vec![method_frame(2)], &mut promises);

    // retry first, then the normal lane, then low-priority.
    assert!(matches!(frames.pop(true), Some(QueuedFrame { frame: Frame::Heartbeat(0), .. })));
    assert!(matches!(frames.pop(true), Some(QueuedFrame { frame: Frame::Method(1, _), .. })));
    assert!(matches!(frames.pop(true), Some(QueuedFrame { frame: Frame::Method(2, _), .. })));
    assert!(frames.pop(true).is_none());
}

#[test]
fn flow_disabled_stalls_low_priority_only() {
    let mut frames = Frames::new();
    let mut promises = PromiseStore::new();
    let _pid = frames.push_frames(publish_batch(2, &[b"abc"]), &mut promises);
    let p = promises.create();
    frames.push(method_frame(1), p);

    // With flow off the low-priority lane is stalled, normal traffic drains.
    assert!(matches!(frames.pop(false), Some(QueuedFrame { frame: Frame::Method(1, _), .. })));
    assert!(frames.pop(false).is_none());
    // Flow back on: the publish can start.
    assert!(matches!(
        frames.pop(true),
        Some(QueuedFrame { frame: Frame::Method(2, Method::BasicPublish { .. }), .. })
    ));
}

#[test]
fn publish_run_stays_contiguous() {
    let mut frames = Frames::new();
    let mut promises = PromiseStore::new();
    let _pid = frames.push_frames(publish_batch(2, &[b"ab", b"cd"]), &mut promises);

    // Popping the publish method frame migrates header + bodies into the
    // publish-sequence lane…
    assert!(matches!(
        frames.pop(true),
        Some(QueuedFrame { frame: Frame::Method(2, Method::BasicPublish { .. }), .. })
    ));
    // …so a frame pushed to the normal lane now cannot interleave.
    let p = promises.create();
    frames.push(method_frame(3), p);

    assert!(matches!(frames.pop(true), Some(QueuedFrame { frame: Frame::Header(2, 60, 4, _), .. })));
    match frames.pop(true) {
        Some(QueuedFrame { frame: Frame::Body(2, b), .. }) => assert_eq!(b, b"ab"),
        other => panic!("expected the first body frame, got {:?}", other),
    }
    match frames.pop(true) {
        Some(QueuedFrame { frame: Frame::Body(2, b), .. }) => assert_eq!(b, b"cd"),
        other => panic!("expected the second body frame, got {:?}", other),
    }
    // Only now does the normal lane get its turn.
    assert!(matches!(frames.pop(true), Some(QueuedFrame { frame: Frame::Method(3, _), .. })));
    assert!(frames.pop(true).is_none());
}

#[test]
fn empty_batch_resolves_immediately() {
    let mut frames = Frames::new();
    let mut promises = PromiseStore::new();
    let pid = frames.push_frames(Vec::new(), &mut promises);
    assert_eq!(*promises.state_of(pid), PromiseState::Resolved);
    assert!(frames.pop(true).is_none());
}

#[test]
fn batch_resolver_rides_on_last_frame() {
    let mut frames = Frames::new();
    let mut promises = PromiseStore::new();
    let pid = frames.push_frames(publish_batch(1, &[b"x"]), &mut promises);
    assert_eq!(*promises.state_of(pid), PromiseState::Pending);

    let first = frames.pop(true).unwrap();
    assert_eq!(first.resolver, None);
    let second = frames.pop(true).unwrap();
    assert_eq!(second.resolver, None);
    let last = frames.pop(true).unwrap();
    assert_eq!(last.resolver, Some(pid));
}

#[test]
fn drop_pending_fails_every_resolver_once() {
    let mut frames = Frames::new();
    let mut promises = PromiseStore::new();
    let p1 = promises.create();
    frames.push(method_frame(1), p1);
    let pid = frames.push_frames(publish_batch(2, &[b"zz"]), &mut promises);
    let resolved = promises.create();
    promises.complete(resolved, PromiseState::Resolved);
    frames.push(method_frame(3), resolved);

    frames.drop_pending(&Error::ConnectionClosedIo, &mut promises);

    assert!(frames.pop(true).is_none());
    assert_eq!(
        *promises.state_of(p1),
        PromiseState::Failed(Error::ConnectionClosedIo)
    );
    assert_eq!(
        *promises.state_of(pid),
        PromiseState::Failed(Error::ConnectionClosedIo)
    );
    // A promise that had already resolved keeps its first outcome.
    assert_eq!(*promises.state_of(resolved), PromiseState::Resolved);
}
