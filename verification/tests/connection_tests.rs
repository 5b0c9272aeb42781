//! End-to-end behavior of the connection state machine: handshake and
//! negotiation, the request/reply FIFO, content assembly, publishing,
//! broker-initiated close, and connection-fatal teardown.

use amqp_core::channel::ChannelState;
use amqp_core::connection::{Connection, ConnectionState, HandshakeEvent};
use amqp_core::consumer::DeliveryOutcome;
use amqp_core::error::Error;
use amqp_core::frame::{BasicProperties, FieldTable, Frame, Method};
use amqp_core::promise::PromiseState;

/// Run the whole handshake: client offers no limits, the broker offers
/// `channel_max` 2047, `frame_max` 131072, heartbeat 60.
fn connected(client_channel_max: u16) -> Connection {
    let mut conn = Connection::new(client_channel_max, 0, 0);
    conn.on_handshake(HandshakeEvent::ProtocolHeaderSent).unwrap();
    conn.on_handshake(HandshakeEvent::StartReceived).unwrap();
    conn.on_handshake(HandshakeEvent::StartOkSent).unwrap();
    conn.on_handshake(HandshakeEvent::TuneReceived(2047, 131072, 60)).unwrap();
    conn.on_handshake(HandshakeEvent::TuneOkSent).unwrap();
    conn.on_handshake(HandshakeEvent::OpenSent).unwrap();
    conn.on_handshake(HandshakeEvent::OpenOkReceived).unwrap();
    conn
}

/// A connection with one open channel; returns the channel id.
fn with_open_channel() -> (Connection, u16) {
    let mut conn = connected(0);
    let id = conn.create_channel().unwrap();
    conn.channel_open(id, String::from("")).unwrap();
    conn.receive_channel_open_ok(id).unwrap();
    (conn, id)
}

fn channel_index(conn: &Connection, id: u16) -> usize {
    conn.channels.iter().position(|c| c.id == id).unwrap()
}

fn empty_table() -> FieldTable {
    FieldTable::new()
}

#[test]
fn handshake_negotiates_minima() {
    let mut conn = Connection::new(100, 4096, 0);
    conn.on_handshake(HandshakeEvent::ProtocolHeaderSent).unwrap();
    conn.on_handshake(HandshakeEvent::StartReceived).unwrap();
    conn.on_handshake(HandshakeEvent::StartOkSent).unwrap();
    // 0 means "no limit": the other side's value wins.
    conn.on_handshake(HandshakeEvent::TuneReceived(2047, 0, 60)).unwrap();
    assert_eq!(conn.channel_max, 100);
    assert_eq!(conn.frame_max, 4096);
    assert_eq!(conn.heartbeat, 60);
    conn.on_handshake(HandshakeEvent::TuneOkSent).unwrap();
    conn.on_handshake(HandshakeEvent::OpenSent).unwrap();
    conn.on_handshake(HandshakeEvent::OpenOkReceived).unwrap();
    assert_eq!(conn.status, ConnectionState::Connected);
}

#[test]
fn handshake_out_of_order_is_fatal() {
    let mut conn = Connection::new(0, 0, 0);
    conn.on_handshake(HandshakeEvent::ProtocolHeaderSent).unwrap();
    assert_eq!(
        conn.on_handshake(HandshakeEvent::TuneOkSent),
        Err(Error::InvalidState)
    );
    assert_eq!(conn.status, ConnectionState::Error);
}

#[test]
fn channel_ids_run_out_at_channel_max() {
    let mut conn = connected(2);
    assert_eq!(conn.create_channel().unwrap(), 1);
    assert_eq!(conn.create_channel().unwrap(), 2);
    assert_eq!(conn.create_channel(), Err(Error::ChannelsLimitReached));
}

#[test]
fn operation_on_missing_channel_is_refused() {
    let mut conn = connected(0);
    assert_eq!(
        conn.basic_qos(42, 0, 10, false),
        Err(Error::InvalidChannel)
    );
}

#[test]
fn operation_before_open_errors_the_channel() {
    // The channel exists but is still Initial: an operation that requires
    // Connected fails with InvalidState and the channel moves to Error.
    let mut conn = connected(0);
    let id = conn.create_channel().unwrap();
    assert_eq!(
        conn.queue_declare(id, 0, String::from("q"), false, false, false, false, false, empty_table()),
        Err(Error::InvalidState)
    );
    let i = channel_index(&conn, id);
    assert_eq!(conn.channels[i].state, ChannelState::Error);
}

#[test]
fn declare_ok_resolves_and_marks_queue_created() {
    let (mut conn, ch) = with_open_channel();
    conn.queue_declare(ch, 0, String::from("q"), false, false, false, false, false, empty_table())
        .unwrap();
    let i = channel_index(&conn, ch);
    let reply_promise = conn.channels[i].awaiting.last().unwrap().resolver;

    conn.receive_queue_declare_ok(ch, String::from("q"), 0, 0).unwrap();

    assert_eq!(*conn.promises.state_of(reply_promise), PromiseState::Resolved);
    let q = conn.channels[i].queues.iter().find(|q| q.name == "q").unwrap();
    assert!(q.created);
    assert_eq!(q.message_count, 0);
    assert_eq!(q.consumer_count, 0);
    assert!(conn.channels[i].awaiting.is_empty());
}

#[test]
fn unrelated_reply_fails_head_with_unexpected_answer() {
    // While a QueueDeclare is outstanding, an unrelated BasicQosOk arrives:
    // the head of the FIFO does not match, the channel goes to Error, and the
    // pending promise fails with UnexpectedAnswer.
    let (mut conn, ch) = with_open_channel();
    conn.queue_declare(ch, 0, String::from("q"), false, false, false, false, false, empty_table())
        .unwrap();
    let i = channel_index(&conn, ch);
    let reply_promise = conn.channels[i].awaiting.last().unwrap().resolver;

    assert_eq!(conn.receive_basic_qos_ok(ch), Err(Error::UnexpectedAnswer));

    assert_eq!(conn.channels[i].state, ChannelState::Error);
    assert_eq!(
        *conn.promises.state_of(reply_promise),
        PromiseState::Failed(Error::UnexpectedAnswer)
    );
}

#[test]
fn replies_resolve_in_fifo_order() {
    let (mut conn, ch) = with_open_channel();
    conn.queue_declare(ch, 0, String::from("q"), false, false, false, false, false, empty_table())
        .unwrap();
    conn.basic_qos(ch, 0, 10, false).unwrap();
    let i = channel_index(&conn, ch);
    assert_eq!(conn.channels[i].awaiting.len(), 2);

    // The declare-ok matches the oldest expectation, the qos-ok the next.
    conn.receive_queue_declare_ok(ch, String::from("q"), 0, 0).unwrap();
    assert_eq!(conn.channels[i].awaiting.len(), 1);
    conn.receive_basic_qos_ok(ch).unwrap();
    assert!(conn.channels[i].awaiting.is_empty());
    assert_eq!(conn.channels[i].prefetch_count, 10);
}

#[test]
fn qos_global_lands_on_the_connection() {
    let (mut conn, ch) = with_open_channel();
    conn.basic_qos(ch, 4096, 7, true).unwrap();
    conn.receive_basic_qos_ok(ch).unwrap();
    assert_eq!(conn.prefetch_size, 4096);
    assert_eq!(conn.prefetch_count, 7);
    let i = channel_index(&conn, ch);
    assert_eq!(conn.channels[i].prefetch_count, 0);
}

#[test]
fn consume_deliver_header_body_hands_out_hello() {
    let (mut conn, ch) = with_open_channel();
    conn.queue_declare(ch, 0, String::from("q"), false, false, false, false, false, empty_table())
        .unwrap();
    conn.receive_queue_declare_ok(ch, String::from("q"), 0, 0).unwrap();

    conn.basic_consume(
        ch,
        0,
        String::from("q"),
        String::from(""),
        false,
        true,
        false,
        false,
        empty_table(),
    )
    .unwrap();
    conn.receive_basic_consume_ok(ch, String::from("amq.ctag-xyz")).unwrap();

    conn.receive_basic_deliver(
        ch,
        String::from("amq.ctag-xyz"),
        1,
        String::from(""),
        String::from("q"),
        false,
    )
    .unwrap();
    conn.receive_content_header(ch, 60, 5, BasicProperties::new()).unwrap();
    conn.receive_body_frame(ch, b"hello".to_vec()).unwrap();

    let i = channel_index(&conn, ch);
    assert_eq!(conn.channels[i].state, ChannelState::Connected);
    let q = conn.channels[i].queues.iter().find(|q| q.name == "q").unwrap();
    let consumer = q.consumers.iter().find(|c| c.tag == "amq.ctag-xyz").unwrap();
    assert_eq!(consumer.deliveries.len(), 1);
    match &consumer.deliveries[0] {
        DeliveryOutcome::Delivered(m) => {
            assert_eq!(m.body, b"hello");
            assert_eq!(m.delivery_tag, 1);
            assert_eq!(m.body_size, 5);
        }
        other => panic!("expected a delivered message, got {:?}", other),
    }
}

#[test]
fn split_body_frames_assemble_whole_delivery() {
    let (mut conn, ch) = with_open_channel();
    conn.queue_declare(ch, 0, String::from("q"), false, false, false, false, false, empty_table())
        .unwrap();
    conn.receive_queue_declare_ok(ch, String::from("q"), 0, 0).unwrap();
    conn.basic_consume(
        ch,
        0,
        String::from("q"),
        String::from("t"),
        false,
        true,
        false,
        false,
        empty_table(),
    )
    .unwrap();
    conn.receive_basic_consume_ok(ch, String::from("t")).unwrap();

    conn.receive_basic_deliver(ch, String::from("t"), 2, String::from(""), String::from("q"), false)
        .unwrap();
    conn.receive_content_header(ch, 60, 10, BasicProperties::new()).unwrap();
    conn.receive_body_frame(ch, b"0123".to_vec()).unwrap();
    let i = channel_index(&conn, ch);
    // Mid-assembly the channel tracks the remaining bytes.
    assert_eq!(
        conn.channels[i].state,
        ChannelState::ReceivingContent(String::from("q"), String::from("t"), 6)
    );
    conn.receive_body_frame(ch, b"456789".to_vec()).unwrap();

    assert_eq!(conn.channels[i].state, ChannelState::Connected);
    let q = conn.channels[i].queues.iter().find(|q| q.name == "q").unwrap();
    let consumer = q.consumers.iter().find(|c| c.tag == "t").unwrap();
    match &consumer.deliveries[0] {
        DeliveryOutcome::Delivered(m) => {
            assert_eq!(m.body, b"0123456789");
            assert_eq!(m.body_size, 10);
        }
        other => panic!("expected a delivered message, got {:?}", other),
    }
}

#[test]
fn zero_size_header_completes_without_body() {
    let (mut conn, ch) = with_open_channel();
    conn.queue_declare(ch, 0, String::from("q"), false, false, false, false, false, empty_table())
        .unwrap();
    conn.receive_queue_declare_ok(ch, String::from("q"), 0, 0).unwrap();
    conn.basic_consume(
        ch,
        0,
        String::from("q"),
        String::from("t"),
        false,
        true,
        false,
        false,
        empty_table(),
    )
    .unwrap();
    conn.receive_basic_consume_ok(ch, String::from("t")).unwrap();

    conn.receive_basic_deliver(ch, String::from("t"), 3, String::from(""), String::from("q"), false)
        .unwrap();
    conn.receive_content_header(ch, 60, 0, BasicProperties::new()).unwrap();

    let i = channel_index(&conn, ch);
    assert_eq!(conn.channels[i].state, ChannelState::Connected);
    let q = conn.channels[i].queues.iter().find(|q| q.name == "q").unwrap();
    let consumer = q.consumers.iter().find(|c| c.tag == "t").unwrap();
    match &consumer.deliveries[0] {
        DeliveryOutcome::Delivered(m) => {
            assert!(m.body.is_empty());
            assert_eq!(m.body_size, 0);
        }
        other => panic!("expected a delivered message, got {:?}", other),
    }
}

#[test]
fn body_frame_without_header_is_a_violation() {
    let (mut conn, ch) = with_open_channel();
    assert_eq!(
        conn.receive_body_frame(ch, b"stray".to_vec()),
        Err(Error::ProtocolUnexpectedFrame)
    );
    let i = channel_index(&conn, ch);
    assert_eq!(conn.channels[i].state, ChannelState::Error);
}

#[test]
fn server_close_fails_all_pending_and_emits_close_ok() {
    let (mut conn, ch) = with_open_channel();
    conn.queue_declare(ch, 0, String::from("q"), false, false, false, false, false, empty_table())
        .unwrap();
    conn.basic_qos(ch, 0, 1, false).unwrap();
    let i = channel_index(&conn, ch);
    let first = conn.channels[i].awaiting[0].resolver;
    let second = conn.channels[i].awaiting[1].resolver;

    conn.receive_channel_close(ch, 406, String::from("PRECONDITION_FAILED"), 0, 0).unwrap();

    let expected = PromiseState::Failed(Error::ChannelClosed(406, String::from("PRECONDITION_FAILED")));
    assert_eq!(*conn.promises.state_of(first), expected);
    assert_eq!(*conn.promises.state_of(second), expected);
    assert_eq!(conn.channels[i].state, ChannelState::Closed);
    assert!(conn.channels[i].awaiting.is_empty());
    // The close-ok confirmation is the last frame queued in the normal lane.
    let last = conn.frames.frames.last().unwrap();
    assert!(matches!(last.frame, Frame::Method(c, Method::ChannelCloseOk) if c == ch));
}

#[test]
fn client_close_round_trip() {
    let (mut conn, ch) = with_open_channel();
    conn.channel_close(ch, 200, String::from("OK"), 0, 0).unwrap();
    conn.receive_channel_close_ok(ch).unwrap();
    let i = channel_index(&conn, ch);
    assert_eq!(conn.channels[i].state, ChannelState::Closed);
}

#[test]
fn flow_from_broker_pauses_sends_and_echoes_ok() {
    let (mut conn, ch) = with_open_channel();
    conn.receive_channel_flow(ch, false).unwrap();
    let i = channel_index(&conn, ch);
    assert!(!conn.channels[i].send_flow);
    let last = conn.frames.frames.last().unwrap();
    assert!(matches!(last.frame, Frame::Method(c, Method::ChannelFlowOk { active: false }) if c == ch));
}

#[test]
fn publish_queues_method_header_and_chunked_bodies() {
    // A connection that negotiated a tiny frame_max of 12, so each content
    // body carries at most 4 bytes.
    let mut conn = Connection::new(0, 12, 0);
    conn.on_handshake(HandshakeEvent::ProtocolHeaderSent).unwrap();
    conn.on_handshake(HandshakeEvent::StartReceived).unwrap();
    conn.on_handshake(HandshakeEvent::StartOkSent).unwrap();
    conn.on_handshake(HandshakeEvent::TuneReceived(2047, 0, 0)).unwrap();
    conn.on_handshake(HandshakeEvent::TuneOkSent).unwrap();
    conn.on_handshake(HandshakeEvent::OpenSent).unwrap();
    conn.on_handshake(HandshakeEvent::OpenOkReceived).unwrap();
    let ch = conn.create_channel().unwrap();
    conn.channel_open(ch, String::from("")).unwrap();
    conn.receive_channel_open_ok(ch).unwrap();

    conn.basic_publish(
        ch,
        0,
        String::from(""),
        String::from("q"),
        false,
        false,
        b"0123456789".to_vec(),
        BasicProperties::new(),
    )
    .unwrap();

    let lane = &conn.frames.low_prio_frames;
    assert_eq!(lane.len(), 5);
    assert!(matches!(lane[0].frame, Frame::Method(c, Method::BasicPublish { .. }) if c == ch));
    assert!(matches!(lane[1].frame, Frame::Header(c, 60, 10, _) if c == ch));
    let bodies: Vec<&Vec<u8>> = lane[2..]
        .iter()
        .map(|qf| match &qf.frame {
            Frame::Body(c, b) => {
                assert_eq!(*c, ch);
                b
            }
            other => panic!("expected a body frame, got {:?}", other),
        })
        .collect();
    assert_eq!(bodies, vec![b"0123".as_slice(), b"4567".as_slice(), b"89".as_slice()]);
    // The batch promise rides on the last frame.
    assert!(lane[4].resolver.is_some());
    assert!(lane[0].resolver.is_none());
}

#[test]
fn empty_payload_publish_has_no_body_frames() {
    let (mut conn, ch) = with_open_channel();
    conn.basic_publish(
        ch,
        0,
        String::from(""),
        String::from("q"),
        false,
        false,
        Vec::new(),
        BasicProperties::new(),
    )
    .unwrap();
    let lane = &conn.frames.low_prio_frames;
    assert_eq!(lane.len(), 2);
    assert!(matches!(lane[0].frame, Frame::Method(_, Method::BasicPublish { .. })));
    assert!(matches!(lane[1].frame, Frame::Header(_, 60, 0, _)));
}

#[test]
fn publish_then_consume_round_trips_payload_and_properties() {
    let (mut conn, ch) = with_open_channel();
    // Drain the channel-open traffic so only the publish is left to pop.
    while conn.frames.pop(true).is_some() {}
    let mut properties = BasicProperties::new();
    properties.content_type = Some(String::from("text/plain"));
    properties.delivery_mode = Some(2);
    let payload = b"round trip body".to_vec();
    conn.basic_publish(
        ch,
        0,
        String::from(""),
        String::from("q"),
        false,
        false,
        payload.clone(),
        properties.clone(),
    )
    .unwrap();

    // Drain the scheduler as the I/O loop would and replay the content
    // frames into a consuming connection.
    let mut emitted = Vec::new();
    while let Some(qf) = conn.frames.pop(true) {
        emitted.push(qf.frame);
    }

    let (mut rx, rch) = with_open_channel();
    rx.queue_declare(rch, 0, String::from("q"), false, false, false, false, false, empty_table())
        .unwrap();
    rx.receive_queue_declare_ok(rch, String::from("q"), 0, 0).unwrap();
    rx.basic_consume(
        rch,
        0,
        String::from("q"),
        String::from("t"),
        false,
        true,
        false,
        false,
        empty_table(),
    )
    .unwrap();
    rx.receive_basic_consume_ok(rch, String::from("t")).unwrap();
    rx.receive_basic_deliver(rch, String::from("t"), 1, String::from(""), String::from("q"), false)
        .unwrap();
    for frame in emitted {
        match frame {
            Frame::Method(_, Method::BasicPublish { .. }) => {}
            Frame::Header(_, class_id, body_size, props) => {
                rx.receive_content_header(rch, class_id, body_size, props).unwrap();
            }
            Frame::Body(_, bytes) => {
                rx.receive_body_frame(rch, bytes).unwrap();
            }
            other => panic!("unexpected outbound frame {:?}", other),
        }
    }

    let i = channel_index(&rx, rch);
    let q = rx.channels[i].queues.iter().find(|q| q.name == "q").unwrap();
    let consumer = q.consumers.iter().find(|c| c.tag == "t").unwrap();
    match &consumer.deliveries[0] {
        DeliveryOutcome::Delivered(m) => {
            assert_eq!(m.body, payload);
            assert_eq!(m.properties, properties);
        }
        other => panic!("expected a delivered message, got {:?}", other),
    }
}

#[test]
fn interleaved_publishes_stay_contiguous() {
    // Ten publishes on one channel and a queue_declare on another while the
    // scheduler drains: each publish triple travels back-to-back and the
    // declare never lands inside one.
    let mut conn = connected(0);
    let ch2 = conn.create_channel().unwrap();
    conn.channel_open(ch2, String::from("")).unwrap();
    conn.receive_channel_open_ok(ch2).unwrap();
    let ch3 = conn.create_channel().unwrap();
    conn.channel_open(ch3, String::from("")).unwrap();
    conn.receive_channel_open_ok(ch3).unwrap();

    // Drain the channel-open traffic first.
    while conn.frames.pop(true).is_some() {}

    for k in 0..10u8 {
        conn.basic_publish(
            ch2,
            0,
            String::from(""),
            String::from("q"),
            false,
            false,
            vec![k; 3],
            BasicProperties::new(),
        )
        .unwrap();
    }
    conn.queue_declare(ch3, 0, String::from("q3"), false, false, false, false, false, empty_table())
        .unwrap();

    let mut emitted = Vec::new();
    while let Some(qf) = conn.frames.pop(true) {
        emitted.push(qf.frame);
    }

    let mut k: usize = 0;
    let mut declares: usize = 0;
    let mut publishes: usize = 0;
    while k < emitted.len() {
        match &emitted[k] {
            Frame::Method(c, Method::BasicPublish { .. }) => {
                assert_eq!(*c, ch2);
                assert!(matches!(&emitted[k + 1], Frame::Header(c2, 60, 3, _) if *c2 == ch2));
                assert!(matches!(&emitted[k + 2], Frame::Body(c2, b) if *c2 == ch2 && b.len() == 3));
                publishes += 1;
                k += 3;
            }
            Frame::Method(c, Method::QueueDeclare { .. }) => {
                assert_eq!(*c, ch3);
                declares += 1;
                k += 1;
            }
            other => panic!("unexpected outbound frame {:?}", other),
        }
    }
    assert_eq!(publishes, 10);
    assert_eq!(declares, 1);
}

#[test]
fn connection_teardown_fails_everything_with_the_reason() {
    let (mut conn, ch) = with_open_channel();
    conn.queue_declare(ch, 0, String::from("q"), false, false, false, false, false, empty_table())
        .unwrap();
    let i = channel_index(&conn, ch);
    let reply_promise = conn.channels[i].awaiting.last().unwrap().resolver;

    conn.drop_pending(&Error::ConnectionClosedByPeer);

    assert_eq!(conn.status, ConnectionState::Error);
    assert!(conn.frames.frames.is_empty());
    assert!(conn.channels[i].awaiting.is_empty());
    assert_eq!(
        *conn.promises.state_of(reply_promise),
        PromiseState::Failed(Error::ConnectionClosedByPeer)
    );
}

#[test]
fn dispatch_routes_frames_and_refuses_protocol_header() {
    let (mut conn, ch) = with_open_channel();
    assert_eq!(conn.dispatch_frame(Frame::Heartbeat(0)), Ok(()));
    assert_eq!(
        conn.dispatch_frame(Frame::ProtocolHeader),
        Err(Error::ProtocolDecode)
    );
    // A full reply dispatched as a frame.
    conn.queue_declare(ch, 0, String::from("q"), false, false, false, false, false, empty_table())
        .unwrap();
    assert_eq!(
        conn.dispatch_frame(Frame::Method(
            ch,
            Method::QueueDeclareOk { queue: String::from("q"), message_count: 3, consumer_count: 1 }
        )),
        Ok(())
    );
    let i = channel_index(&conn, ch);
    let q = conn.channels[i].queues.iter().find(|q| q.name == "q").unwrap();
    assert_eq!(q.message_count, 3);
    assert_eq!(q.consumer_count, 1);
}

#[test]
fn client_only_method_from_the_wire_is_refused() {
    // The broker can never legally send us a queue.declare; the dispatcher
    // refuses it and touches nothing.
    let (mut conn, ch) = with_open_channel();
    let before = conn.channels.len();
    assert_eq!(
        conn.dispatch_frame(Frame::Method(
            ch,
            Method::QueueDeclare {
                ticket: 0,
                queue: String::from("q"),
                passive: false,
                durable: false,
                exclusive: false,
                auto_delete: false,
                nowait: false,
                arguments: FieldTable::new(),
            }
        )),
        Err(Error::InvalidState)
    );
    assert_eq!(conn.channels.len(), before);
    let i = channel_index(&conn, ch);
    assert_eq!(conn.channels[i].state, ChannelState::Connected);
}

#[test]
fn method_frame_interrupting_content_is_fatal_for_the_channel() {
    let (mut conn, ch) = with_open_channel();
    conn.queue_declare(ch, 0, String::from("q"), false, false, false, false, false, empty_table())
        .unwrap();
    conn.receive_queue_declare_ok(ch, String::from("q"), 0, 0).unwrap();
    conn.basic_consume(
        ch,
        0,
        String::from("q"),
        String::from("t"),
        false,
        true,
        false,
        false,
        empty_table(),
    )
    .unwrap();
    conn.receive_basic_consume_ok(ch, String::from("t")).unwrap();
    conn.receive_basic_deliver(ch, String::from("t"), 1, String::from(""), String::from("q"), false)
        .unwrap();

    // Between deliver and its header only content may arrive.
    assert_eq!(
        conn.dispatch_frame(Frame::Method(ch, Method::BasicQosOk)),
        Err(Error::ProtocolUnexpectedFrame)
    );
    let i = channel_index(&conn, ch);
    assert_eq!(conn.channels[i].state, ChannelState::Error);
    // The partial delivery was discarded.
    let q = conn.channels[i].queues.iter().find(|q| q.name == "q").unwrap();
    let consumer = q.consumers.iter().find(|c| c.tag == "t").unwrap();
    assert!(consumer.current_message.is_none());
    assert!(consumer.deliveries.is_empty());
}

#[test]
fn bind_then_unbind_tracks_binding_state() {
    let (mut conn, ch) = with_open_channel();
    conn.queue_declare(ch, 0, String::from("q"), false, false, false, false, false, empty_table())
        .unwrap();
    conn.receive_queue_declare_ok(ch, String::from("q"), 0, 0).unwrap();

    conn.queue_bind(
        ch,
        0,
        String::from("q"),
        String::from("ex"),
        String::from("rk"),
        false,
        empty_table(),
    )
    .unwrap();
    let i = channel_index(&conn, ch);
    {
        let q = conn.channels[i].queues.iter().find(|q| q.name == "q").unwrap();
        assert_eq!(q.bindings.len(), 1);
        assert!(!q.bindings[0].active);
    }
    conn.receive_queue_bind_ok(ch).unwrap();
    {
        let q = conn.channels[i].queues.iter().find(|q| q.name == "q").unwrap();
        assert!(q.bindings[0].active);
    }

    conn.queue_unbind(ch, 0, String::from("q"), String::from("ex"), String::from("rk"), empty_table())
        .unwrap();
    conn.receive_queue_unbind_ok(ch).unwrap();
    let q = conn.channels[i].queues.iter().find(|q| q.name == "q").unwrap();
    assert!(q.bindings.is_empty());
}

#[test]
fn cancel_ok_removes_the_consumer() {
    let (mut conn, ch) = with_open_channel();
    conn.queue_declare(ch, 0, String::from("q"), false, false, false, false, false, empty_table())
        .unwrap();
    conn.receive_queue_declare_ok(ch, String::from("q"), 0, 0).unwrap();
    conn.basic_consume(
        ch,
        0,
        String::from("q"),
        String::from("t"),
        false,
        true,
        false,
        false,
        empty_table(),
    )
    .unwrap();
    conn.receive_basic_consume_ok(ch, String::from("t")).unwrap();

    conn.basic_cancel(ch, String::from("t"), false).unwrap();
    conn.receive_basic_cancel_ok(ch, String::from("t")).unwrap();

    let i = channel_index(&conn, ch);
    let q = conn.channels[i].queues.iter().find(|q| q.name == "q").unwrap();
    assert!(q.consumers.is_empty());

    // queue.delete drops the queue itself.
    conn.queue_delete(ch, 0, String::from("q"), false, false, false).unwrap();
    conn.receive_queue_delete_ok(ch, 0).unwrap();
    assert!(conn.channels[i].queues.is_empty());
}

#[test]
fn clearing_expected_replies_cancels_them_with_the_reason() {
    let (mut conn, ch) = with_open_channel();
    conn.queue_declare(ch, 0, String::from("q"), false, false, false, false, false, empty_table())
        .unwrap();
    let i = channel_index(&conn, ch);
    let reply_promise = conn.channels[i].awaiting.last().unwrap().resolver;

    conn.clear_expected_replies(ch, &Error::ConnectionClosedByUs);

    assert!(conn.channels[i].awaiting.is_empty());
    assert_eq!(
        *conn.promises.state_of(reply_promise),
        PromiseState::Failed(Error::ConnectionClosedByUs)
    );
}

#[test]
fn client_flow_round_trip_records_receive_flow() {
    let (mut conn, ch) = with_open_channel();
    conn.channel_flow(ch, false).unwrap();
    conn.receive_channel_flow_ok(ch, false).unwrap();
    let i = channel_index(&conn, ch);
    assert!(!conn.channels[i].receive_flow);
    assert!(conn.channels[i].awaiting.is_empty());
}

#[test]
fn request_ids_are_fresh_and_recorded_when_finished() {
    let (mut conn, ch) = with_open_channel();
    let r1 = conn.basic_qos(ch, 0, 1, false).unwrap();
    let r2 = conn.basic_get(ch, 0, String::from("q"), true).unwrap();
    assert_ne!(r1, r2);
    assert!(!conn.is_finished(r1));
    conn.receive_basic_qos_ok(ch).unwrap();
    assert!(conn.is_finished(r1));
    assert!(!conn.is_finished(r2));
    // basic.get may be answered by get-empty.
    conn.receive_basic_get_empty(ch).unwrap();
    assert!(conn.is_finished(r2));
}
