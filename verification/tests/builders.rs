use bytes::BytesMut;
use stomp::codec::Codec;
use stomp::header::{Header, SuppressedHeader};
use stomp::session::{GenerateReceipt, SessionEvent};
use stomp::session_builder::SessionBuilder;
use stomp::subscription::AckMode;

fn outbound_text(session: &mut stomp::session::Session) -> String {
    let mut codec = Codec;
    let mut buffer = BytesMut::new();
    for t in session.take_outbound() {
        codec.encode(t, &mut buffer).unwrap();
    }
    String::from_utf8(buffer[..].to_vec()).unwrap()
}

fn dispatch(session: &mut stomp::session::Session, bytes: &[u8]) {
    let mut codec = Codec;
    let mut buffer = BytesMut::from(bytes);
    while let Ok(Some(t)) = codec.decode(&mut buffer) {
        session.dispatch(t);
    }
}

#[test]
fn subscription_with_options_and_receipt() {
    let mut session = SessionBuilder::new("h", 61613).start();
    let builder = session.subscription("/q/a");
    let builder = builder
        .with(AckMode::Client)
        .with(Header::new("durable", "true"))
        .with(GenerateReceipt);
    let id = builder.start(&mut session);
    assert_eq!(id, "stomp-rs/0");
    let text = outbound_text(&mut session);
    assert_eq!(
        text,
        "SUBSCRIBE\ndestination:/q/a\nid:stomp-rs/0\nack:client\ndurable:true\nreceipt:message/0\n\n\0"
    );
    dispatch(&mut session, b"RECEIPT\nreceipt-id:message/0\n\n\0");
    match session.next_event() {
        Some(SessionEvent::Receipt { id, original, .. }) => {
            assert_eq!(id, "message/0");
            assert!(matches!(original.command, stomp::frame::Command::Subscribe));
        }
        _ => panic!("expected the subscription's receipt"),
    }
}

#[test]
fn message_builder_options_apply_in_order() {
    let mut session = SessionBuilder::new("h", 61613).start();
    let builder = session.message("/q/a", "x");
    builder
        .with(Header::new("priority", "7"))
        .with(stomp::header::ContentType("text/plain"))
        .send(&mut session);
    let text = outbound_text(&mut session);
    assert_eq!(
        text,
        "SEND\ndestination:/q/a\ncontent-length:1\npriority:7\ncontent-type:text/plain\n\nx\0"
    );
}

#[test]
fn suppressed_header_removes_every_match() {
    let mut session = SessionBuilder::new("h", 61613)
        .with(SuppressedHeader("content-length"))
        .start();
    session.on_stream_ready();
    let text = outbound_text(&mut session);
    assert!(!text.contains("content-length"));
    assert!(text.starts_with("CONNECT\nhost:h\naccept-version:1.2\n"));
}

#[test]
fn suppressing_a_message_header_removes_it_from_the_frame() {
    let mut session = SessionBuilder::new("h", 61613).start();
    let builder = session.message("/q/a", "x");
    builder.with(SuppressedHeader("content-length")).send(&mut session);
    let text = outbound_text(&mut session);
    assert_eq!(text, "SEND\ndestination:/q/a\n\nx\0");
}

#[test]
fn empty_body_with_zero_content_length() {
    let mut session = SessionBuilder::new("h", 61613).start();
    session.message("/q/a", "").send(&mut session);
    let text = outbound_text(&mut session);
    assert_eq!(text, "SEND\ndestination:/q/a\ncontent-length:0\n\n\0");
    let mut codec = Codec;
    let mut buffer = BytesMut::from(&b"MESSAGE\ncontent-length:0\n\n\0"[..]);
    match codec.decode(&mut buffer) {
        Ok(Some(stomp::frame::Transmission::CompleteFrame(frame))) => {
            assert!(frame.body.is_empty());
        }
        other => panic!("expected an empty-bodied frame, got {other:?}"),
    }
}
