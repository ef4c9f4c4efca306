use bytes::BytesMut;
use stomp::codec::Codec;
use stomp::frame::{Command, Frame, Transmission};

fn decode_all(codec: &mut Codec, buffer: &mut BytesMut) -> Vec<Transmission> {
    let mut out = Vec::new();
    while let Ok(Some(t)) = codec.decode(buffer) {
        out.push(t);
    }
    out
}

#[test]
fn heartbeat_only_stream() {
    // A run of bare newlines is one heartbeat, consumed in full; afterwards
    // the decoder reports that it needs more bytes.
    let mut codec = Codec;
    let mut buffer = BytesMut::from(&b"\n\n\n"[..]);
    match codec.decode(&mut buffer) {
        Ok(Some(Transmission::HeartBeat)) => {}
        other => panic!("expected one heartbeat, got {other:?}"),
    }
    assert_eq!(buffer.len(), 0);
    assert!(matches!(codec.decode(&mut buffer), Ok(None)));
}

#[test]
fn crlf_heartbeat_accepted() {
    let mut codec = Codec;
    let mut buffer = BytesMut::from(&b"\r\n"[..]);
    assert!(matches!(codec.decode(&mut buffer), Ok(Some(Transmission::HeartBeat))));
    assert_eq!(buffer.len(), 0);
}

#[test]
fn message_with_content_length_and_embedded_nul() {
    let mut codec = Codec;
    let mut buffer = BytesMut::from(
        &b"MESSAGE\nsubscription:stomp-rs/0\ndestination:/q/a\nmessage-id:m1\ncontent-length:3\n\nA\0B\0"[..],
    );
    let frame = match codec.decode(&mut buffer) {
        Ok(Some(Transmission::CompleteFrame(frame))) => frame,
        other => panic!("expected a frame, got {other:?}"),
    };
    assert!(matches!(frame.command, Command::Message));
    assert_eq!(frame.body, vec![0x41, 0x00, 0x42]);
    assert_eq!(frame.headers.get_header("message-id").unwrap().get_value(), "m1");
    assert_eq!(buffer.len(), 0);
}

#[test]
fn body_read_up_to_nul_without_content_length() {
    let mut codec = Codec;
    let mut buffer = BytesMut::from(&b"ERROR\nmessage:bad\n\noops\0leftover"[..]);
    let frame = match codec.decode(&mut buffer) {
        Ok(Some(Transmission::CompleteFrame(frame))) => frame,
        other => panic!("expected a frame, got {other:?}"),
    };
    assert!(matches!(frame.command, Command::Error));
    assert_eq!(frame.body, b"oops".to_vec());
    assert_eq!(&buffer[..], b"leftover");
}

#[test]
fn incomplete_frame_leaves_buffer_untouched() {
    let mut codec = Codec;
    let mut buffer = BytesMut::from(&b"CONNECTED\nversion:1.2\n"[..]);
    assert!(matches!(codec.decode(&mut buffer), Ok(None)));
    assert_eq!(&buffer[..], b"CONNECTED\nversion:1.2\n");
}

#[test]
fn unknown_command_is_a_decode_error() {
    let mut codec = Codec;
    let mut buffer = BytesMut::from(&b"BOGUS\n\n\0"[..]);
    assert!(codec.decode(&mut buffer).is_err());
    assert_eq!(&buffer[..], b"BOGUS\n\n\0");
}

#[test]
fn unparseable_content_length_is_a_decode_error() {
    let mut codec = Codec;
    let mut buffer = BytesMut::from(&b"MESSAGE\ncontent-length:ten\n\nabc\0"[..]);
    assert!(codec.decode(&mut buffer).is_err());
}

#[test]
fn bad_header_escape_is_a_decode_error() {
    let mut codec = Codec;
    let mut buffer = BytesMut::from(&b"MESSAGE\nkey:bad\\escape\n\nx\0"[..]);
    assert!(codec.decode(&mut buffer).is_err());
}

#[test]
fn header_escapes_are_undone_on_decode() {
    let mut codec = Codec;
    let mut buffer = BytesMut::from(&b"MESSAGE\ndest\\cination:a\\nb\n\n\0"[..]);
    let frame = match codec.decode(&mut buffer) {
        Ok(Some(Transmission::CompleteFrame(frame))) => frame,
        other => panic!("expected a frame, got {other:?}"),
    };
    assert_eq!(frame.headers.headers[0].get_key(), "dest:ination");
    assert_eq!(frame.headers.headers[0].get_value(), "a\nb");
}

#[test]
fn crlf_line_endings_accepted_in_frames() {
    let mut codec = Codec;
    let mut buffer = BytesMut::from(&b"RECEIPT\r\nreceipt-id:message/0\r\n\r\n\0"[..]);
    let frame = match codec.decode(&mut buffer) {
        Ok(Some(Transmission::CompleteFrame(frame))) => frame,
        other => panic!("expected a frame, got {other:?}"),
    };
    assert!(matches!(frame.command, Command::Receipt));
    assert_eq!(frame.headers.get_receipt_id().unwrap().0, "message/0");
}

#[test]
fn encode_writes_the_wire_form() {
    let mut codec = Codec;
    let mut buffer = BytesMut::new();
    let frame = Frame::send("/q/a", b"hi");
    codec.encode(Transmission::CompleteFrame(frame), &mut buffer).unwrap();
    codec.encode(Transmission::HeartBeat, &mut buffer).unwrap();
    assert_eq!(&buffer[..], b"SEND\ndestination:/q/a\ncontent-length:2\n\nhi\0\n");
}

#[test]
fn frame_round_trip_through_the_codec() {
    // Encoding a frame and decoding the bytes yields the frame back.
    let mut codec = Codec;
    let mut buffer = BytesMut::new();
    let frame = Frame::send("/q/a", b"A\0B");
    codec
        .encode(Transmission::CompleteFrame(frame), &mut buffer)
        .unwrap();
    let decoded = match codec.decode(&mut buffer) {
        Ok(Some(Transmission::CompleteFrame(frame))) => frame,
        other => panic!("expected a frame, got {other:?}"),
    };
    assert!(matches!(decoded.command, Command::Send));
    assert_eq!(decoded.body, b"A\0B".to_vec());
    assert_eq!(decoded.headers.get_destination().unwrap().0, "/q/a");
    assert_eq!(decoded.headers.get_content_length().unwrap().0, 3);
    assert_eq!(buffer.len(), 0);
}

#[test]
fn successive_transmissions_decode_in_order() {
    let mut codec = Codec;
    let mut buffer = BytesMut::from(&b"\nCONNECTED\nversion:1.2\n\n\0RECEIPT\nreceipt-id:r1\n\n\0"[..]);
    let all = decode_all(&mut codec, &mut buffer);
    assert_eq!(all.len(), 3);
    assert!(matches!(all[0], Transmission::HeartBeat));
    assert!(matches!(
        &all[1],
        Transmission::CompleteFrame(f) if matches!(f.command, Command::Connected)
    ));
    assert!(matches!(
        &all[2],
        Transmission::CompleteFrame(f) if matches!(f.command, Command::Receipt)
    ));
}
