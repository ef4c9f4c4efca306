use bytes::BytesMut;
use stomp::codec::Codec;
use stomp::connection::{Credentials, HeartBeat};
use stomp::frame::{Command, Transmission};
use stomp::session::{DisconnectionReason, GenerateReceipt, SessionEvent, StreamState};
use stomp::session_builder::SessionBuilder;
use stomp::subscription::{AckMode, AckOrNack};

fn decode_and_dispatch(session: &mut stomp::session::Session, bytes: &[u8]) {
    let mut codec = Codec;
    let mut buffer = BytesMut::from(bytes);
    while let Ok(Some(t)) = codec.decode(&mut buffer) {
        session.dispatch(t);
    }
}

fn outbound_bytes(session: &mut stomp::session::Session) -> Vec<u8> {
    let mut codec = Codec;
    let mut buffer = BytesMut::new();
    for t in session.take_outbound() {
        codec.encode(t, &mut buffer).unwrap();
    }
    buffer[..].to_vec()
}

#[test]
fn connect_handshake_negotiates_heartbeats() {
    // Client advertises (5000, 2000); the server is willing to send every
    // 1000 ms and wants to receive every 3000 ms. Agreed (tx, rx) =
    // (max(5000, 3000), max(2000, 1000)) = (5000, 2000); the receive
    // deadline gets the double grace allowance: 4000 ms.
    let mut session = SessionBuilder::new("h", 61613).with(HeartBeat(5000, 2000)).start();
    assert!(matches!(session.stream_state(), StreamState::Connecting));
    session.on_stream_connected();
    session.on_stream_ready();
    let wire = outbound_bytes(&mut session);
    assert_eq!(
        wire,
        b"CONNECT\nhost:h\naccept-version:1.2\ncontent-length:0\nheart-beat:5000,2000\n\n\0".to_vec()
    );
    decode_and_dispatch(&mut session, b"CONNECTED\nversion:1.2\nheart-beat:1000,3000\n\n\0");
    assert!(matches!(session.next_event(), Some(SessionEvent::Connected)));
    assert_eq!(session.state.tx_heartbeat_ms, Some(5000));
    assert_eq!(session.state.rx_heartbeat_ms, Some(4000));
}

#[test]
fn connected_without_heartbeat_header_disables_timers() {
    let mut session = SessionBuilder::new("h", 61613).with(HeartBeat(5000, 2000)).start();
    decode_and_dispatch(&mut session, b"CONNECTED\nversion:1.2\n\n\0");
    assert!(matches!(session.next_event(), Some(SessionEvent::Connected)));
    assert_eq!(session.state.tx_heartbeat_ms, Some(0));
    assert_eq!(session.state.rx_heartbeat_ms, Some(0));
}

#[test]
fn credentials_are_added_to_the_connect_frame() {
    let mut session = SessionBuilder::new("h", 61613)
        .with(Credentials("user", "SECRET-REDACTED"))
        .start();
    session.on_stream_ready();
    let wire = outbound_bytes(&mut session);
    let text = String::from_utf8(wire).unwrap();
    assert!(text.contains("login:user\n"));
    assert!(text.contains("passcode:SECRET-REDACTED\n"));
    assert!(text.contains("heart-beat:0,0\n"));
}

#[test]
fn message_routing_by_subscription_id() {
    // A MESSAGE whose subscription header names an active subscription is a
    // Message event; any other MESSAGE is a SubscriptionlessFrame event.
    let mut session = SessionBuilder::new("h", 61613).start();
    let id = session.subscription("/q/a").start(&mut session);
    assert_eq!(id, "stomp-rs/0");
    let _ = session.take_outbound();
    decode_and_dispatch(
        &mut session,
        b"MESSAGE\nsubscription:stomp-rs/0\ndestination:/q/a\nmessage-id:m1\ncontent-length:3\n\nA\0B\0",
    );
    match session.next_event() {
        Some(SessionEvent::Message { destination, ack_mode, frame }) => {
            assert_eq!(destination, "/q/a");
            assert!(matches!(ack_mode, AckMode::Auto));
            assert_eq!(frame.body, vec![0x41, 0x00, 0x42]);
        }
        other => panic!("expected a Message event, got {:?}", event_name(&other)),
    }
    // No ACK is emitted for an auto subscription.
    assert!(session.take_outbound().is_empty());
    decode_and_dispatch(&mut session, b"MESSAGE\nsubscription:other\n\nx\0");
    assert!(matches!(session.next_event(), Some(SessionEvent::SubscriptionlessFrame(_))));
}

#[test]
fn no_message_events_after_unsubscribe() {
    let mut session = SessionBuilder::new("h", 61613).start();
    let id = session.subscription("/q/a").start(&mut session);
    session.unsubscribe(id.as_str());
    let wire = outbound_bytes(&mut session);
    let text = String::from_utf8(wire).unwrap();
    assert!(text.ends_with("UNSUBSCRIBE\nid:stomp-rs/0\n\n\0"));
    decode_and_dispatch(&mut session, b"MESSAGE\nsubscription:stomp-rs/0\n\nx\0");
    assert!(matches!(session.next_event(), Some(SessionEvent::SubscriptionlessFrame(_))));
}

#[test]
fn receipt_correlation() {
    // message/0 is allocated, travels as a receipt header, and the matching
    // RECEIPT produces exactly one Receipt event holding the original frame.
    let mut session = SessionBuilder::new("h", 61613).start();
    session.message("/q/a", "hello").with(GenerateReceipt).send(&mut session);
    let wire = outbound_bytes(&mut session);
    assert_eq!(
        wire,
        b"SEND\ndestination:/q/a\ncontent-length:5\nreceipt:message/0\n\nhello\0".to_vec()
    );
    decode_and_dispatch(&mut session, b"RECEIPT\nreceipt-id:message/0\n\n\0");
    match session.next_event() {
        Some(SessionEvent::Receipt { id, original, receipt }) => {
            assert_eq!(id, "message/0");
            assert!(matches!(original.command, Command::Send));
            assert_eq!(original.body, b"hello".to_vec());
            assert!(matches!(receipt.command, Command::Receipt));
        }
        other => panic!("expected a Receipt event, got {:?}", event_name(&other)),
    }
    assert_eq!(session.state.outstanding_receipts.len(), 0);
}

#[test]
fn at_most_one_receipt_event_per_id() {
    let mut session = SessionBuilder::new("h", 61613).start();
    session.message("/q/a", "x").with(GenerateReceipt).send(&mut session);
    decode_and_dispatch(&mut session, b"RECEIPT\nreceipt-id:message/0\n\n\0");
    decode_and_dispatch(&mut session, b"RECEIPT\nreceipt-id:message/0\n\n\0");
    let mut receipts = 0;
    while let Some(event) = session.next_event() {
        if matches!(event, SessionEvent::Receipt { .. }) {
            receipts += 1;
        }
    }
    assert_eq!(receipts, 1);
}

#[test]
fn heartbeat_timeout_is_fatal() {
    // Negotiated rx 2000 ms gives a 4000 ms deadline; when the driver sees
    // the deadline pass it reports the timeout, the session fails, and no
    // further events follow.
    let mut session = SessionBuilder::new("h", 61613).with(HeartBeat(0, 2000)).start();
    decode_and_dispatch(&mut session, b"CONNECTED\nheart-beat:1000,3000\n\n\0");
    assert!(matches!(session.next_event(), Some(SessionEvent::Connected)));
    assert_eq!(session.state.rx_heartbeat_ms, Some(4000));
    session.on_disconnect(DisconnectionReason::HeartbeatTimeout);
    assert!(matches!(
        session.next_event(),
        Some(SessionEvent::Disconnected(DisconnectionReason::HeartbeatTimeout))
    ));
    assert!(matches!(session.stream_state(), StreamState::Failed));
    assert!(session.next_event().is_none());
}

#[test]
fn only_one_disconnected_event_is_ever_reported() {
    let mut session = SessionBuilder::new("h", 61613).start();
    session.on_disconnect(DisconnectionReason::RecvFailed);
    session.on_disconnect(DisconnectionReason::HeartbeatTimeout);
    assert!(matches!(
        session.next_event(),
        Some(SessionEvent::Disconnected(DisconnectionReason::RecvFailed))
    ));
    assert!(session.next_event().is_none());
}

#[test]
fn sends_after_failure_are_dropped() {
    // Once the session has failed, later sends are no-ops: nothing joins
    // the outbound queue.
    let mut session = SessionBuilder::new("h", 61613).start();
    session.on_disconnect(DisconnectionReason::RecvFailed);
    session.message("/q/a", "x").send(&mut session);
    session.disconnect();
    session.reply_to_heartbeat();
    let transaction = session.begin_transaction();
    transaction.commit(&mut session);
    assert!(session.take_outbound().is_empty());
}

#[test]
fn transactional_commit_wire_order() {
    let mut session = SessionBuilder::new("h", 61613).start();
    let transaction = session.begin_transaction();
    transaction.message("/q/a", "x").send(&mut session);
    transaction.message("/q/a", "y").send(&mut session);
    transaction.commit(&mut session);
    let wire = outbound_bytes(&mut session);
    let expected = b"BEGIN\ntransaction:tx/0\n\n\0\
SEND\ndestination:/q/a\ncontent-length:1\ntransaction:tx/0\n\nx\0\
SEND\ndestination:/q/a\ncontent-length:1\ntransaction:tx/0\n\ny\0\
COMMIT\ntransaction:tx/0\n\n\0";
    assert_eq!(wire, expected.to_vec());
}

#[test]
fn transaction_abort_wire() {
    let mut session = SessionBuilder::new("h", 61613).start();
    let transaction = session.begin_transaction();
    transaction.abort(&mut session);
    let wire = outbound_bytes(&mut session);
    assert_eq!(wire, b"BEGIN\ntransaction:tx/0\n\n\0ABORT\ntransaction:tx/0\n\n\0".to_vec());
}

#[test]
fn ids_increase_from_zero() {
    let mut session = SessionBuilder::new("h", 61613).start();
    let s0 = session.subscription("/a").start(&mut session);
    let s1 = session.subscription("/b").start(&mut session);
    assert_eq!((s0.as_str(), s1.as_str()), ("stomp-rs/0", "stomp-rs/1"));
    let t0 = session.begin_transaction();
    let t0_id = t0.id.clone();
    t0.commit(&mut session);
    let t1 = session.begin_transaction();
    assert_eq!((t0_id.as_str(), t1.id.as_str()), ("tx/0", "tx/1"));
    session.message("/a", "x").with(GenerateReceipt).send(&mut session);
    session.message("/a", "y").with(GenerateReceipt).send(&mut session);
    let text = String::from_utf8(outbound_bytes(&mut session)).unwrap();
    assert!(text.contains("receipt:message/0\n"));
    assert!(text.contains("receipt:message/1\n"));
}

#[test]
fn acknowledge_frame_uses_the_ack_header() {
    let mut session = SessionBuilder::new("h", 61613).start();
    decode_and_dispatch(&mut session, b"MESSAGE\nsubscription:s\nack:ack-9\n\nx\0");
    let frame = match session.next_event() {
        Some(SessionEvent::SubscriptionlessFrame(frame)) => frame,
        other => panic!("expected a frame event, got {:?}", event_name(&other)),
    };
    session.acknowledge_frame(&frame, AckOrNack::Ack);
    let text = String::from_utf8(outbound_bytes(&mut session)).unwrap();
    assert_eq!(text, "ACK\nid:ack-9\n\n\0");
    session.acknowledge_frame(&frame, AckOrNack::Nack);
    let text = String::from_utf8(outbound_bytes(&mut session)).unwrap();
    assert_eq!(text, "NACK\nid:ack-9\n\n\0");
}

#[test]
fn ack_is_a_no_op_without_ack_header() {
    let mut session = SessionBuilder::new("h", 61613).start();
    decode_and_dispatch(&mut session, b"MESSAGE\nsubscription:s\n\nx\0");
    let frame = match session.next_event() {
        Some(SessionEvent::SubscriptionlessFrame(frame)) => frame,
        other => panic!("expected a frame event, got {:?}", event_name(&other)),
    };
    session.acknowledge_frame(&frame, AckOrNack::Ack);
    assert!(session.take_outbound().is_empty());
}

#[test]
fn error_frames_surface_without_disconnecting() {
    let mut session = SessionBuilder::new("h", 61613).start();
    session.on_stream_connected();
    decode_and_dispatch(&mut session, b"ERROR\nmessage:bad\n\noops\0");
    assert!(matches!(session.next_event(), Some(SessionEvent::ErrorFrame(_))));
    assert!(matches!(session.stream_state(), StreamState::Connected));
}

#[test]
fn outbound_only_commands_surface_as_unknown_frames() {
    let mut session = SessionBuilder::new("h", 61613).start();
    decode_and_dispatch(&mut session, b"SEND\ndestination:/q/a\n\nx\0");
    assert!(matches!(session.next_event(), Some(SessionEvent::UnknownFrame(_))));
}

#[test]
fn requested_disconnect_completes_on_its_receipt() {
    let mut session = SessionBuilder::new("h", 61613).start();
    session.disconnect();
    let text = String::from_utf8(outbound_bytes(&mut session)).unwrap();
    assert_eq!(text, "DISCONNECT\nreceipt:msg/disconnect\n\n\0");
    decode_and_dispatch(&mut session, b"RECEIPT\nreceipt-id:msg/disconnect\n\n\0");
    assert!(matches!(
        session.next_event(),
        Some(SessionEvent::Disconnected(DisconnectionReason::Requested))
    ));
    assert!(matches!(session.stream_state(), StreamState::Failed));
}

fn event_name(event: &Option<SessionEvent>) -> &'static str {
    match event {
        None => "nothing",
        Some(SessionEvent::Connected) => "Connected",
        Some(SessionEvent::ErrorFrame(_)) => "ErrorFrame",
        Some(SessionEvent::Receipt { .. }) => "Receipt",
        Some(SessionEvent::Message { .. }) => "Message",
        Some(SessionEvent::SubscriptionlessFrame(_)) => "SubscriptionlessFrame",
        Some(SessionEvent::UnknownFrame(_)) => "UnknownFrame",
        Some(SessionEvent::Disconnected(_)) => "Disconnected",
    }
}
