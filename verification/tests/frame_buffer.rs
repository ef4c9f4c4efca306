use stomp::frame::{Command, Transmission};
use stomp::frame_buffer::FrameBuffer;

#[test]
fn incremental_parse_across_appends() {
    let mut buffer = FrameBuffer::new();
    buffer.append(b"CONNECTED\nversion:");
    assert!(matches!(buffer.read_transmission(), Ok(None)));
    buffer.append(b"1.2\n\n");
    assert!(matches!(buffer.read_transmission(), Ok(None)));
    buffer.append(b"\0");
    match buffer.read_transmission() {
        Ok(Some(Transmission::CompleteFrame(frame))) => {
            assert!(matches!(frame.command, Command::Connected));
            assert_eq!(frame.headers.get_version().unwrap().0, stomp::header::StompVersion::Stomp_v1_2);
            assert!(frame.body.is_empty());
        }
        other => panic!("expected a frame, got {other:?}"),
    }
    assert_eq!(buffer.len(), 0);
}

#[test]
fn each_blank_line_is_one_heartbeat() {
    let mut buffer = FrameBuffer::new();
    buffer.append(b"\n\n");
    assert!(matches!(buffer.read_transmission(), Ok(Some(Transmission::HeartBeat))));
    assert!(matches!(buffer.read_transmission(), Ok(Some(Transmission::HeartBeat))));
    assert!(matches!(buffer.read_transmission(), Ok(None)));
}

#[test]
fn body_by_content_length_keeps_embedded_nuls() {
    let mut buffer = FrameBuffer::new();
    buffer.append(b"MESSAGE\ncontent-length:3\n\nA\0B\0");
    match buffer.read_transmission() {
        Ok(Some(Transmission::CompleteFrame(frame))) => {
            assert_eq!(frame.body, vec![0x41, 0x00, 0x42]);
        }
        other => panic!("expected a frame, got {other:?}"),
    }
}

#[test]
fn invalid_header_line_is_an_error() {
    let mut buffer = FrameBuffer::new();
    buffer.append(b"MESSAGE\nno-colon-line\n\nx\0");
    assert!(buffer.read_transmission().is_err());
}

#[test]
fn unknown_command_is_an_error() {
    let mut buffer = FrameBuffer::new();
    buffer.append(b"NONSENSE\n\n\0");
    assert!(buffer.read_transmission().is_err());
}

#[test]
fn body_as_string_replaces_binary() {
    assert_eq!(FrameBuffer::body_as_string(&b"text".to_vec()), "text");
    assert_eq!(FrameBuffer::body_as_string(&vec![0xff, 0xfe]), "<Non-utf8 Binary Content>");
}
