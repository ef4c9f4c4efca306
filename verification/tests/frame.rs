use bytes::BytesMut;
use stomp::frame::{Command, Frame, Transmission};
use stomp::subscription::AckMode;

#[test]
fn command_names_round_trip() {
    let commands = [
        Command::Send,
        Command::Subscribe,
        Command::Unsubscribe,
        Command::Begin,
        Command::Commit,
        Command::Abort,
        Command::Ack,
        Command::Nack,
        Command::Disconnect,
        Command::Connect,
        Command::Stomp,
        Command::Connected,
        Command::Message,
        Command::Receipt,
        Command::Error,
    ];
    for command in commands {
        assert_eq!(Command::from_name(command.as_str()), Some(command));
    }
    assert_eq!(Command::from_name("PATCH"), None);
}

#[test]
fn connect_frame_headers() {
    let frame = Frame::connect(5000, 2000);
    assert!(matches!(frame.command, Command::Connect));
    assert_eq!(frame.headers.get_header("heart-beat").unwrap().get_value(), "5000,2000");
    assert_eq!(frame.headers.get_header("accept-version").unwrap().get_value(), "1.2");
    assert_eq!(frame.headers.get_header("content-length").unwrap().get_value(), "0");
    assert!(frame.body.is_empty());
}

#[test]
fn subscribe_frame_headers() {
    let frame = Frame::subscribe("stomp-rs/3", "/q/a", AckMode::ClientIndividual);
    assert!(matches!(frame.command, Command::Subscribe));
    assert_eq!(frame.headers.get_destination().unwrap().0, "/q/a");
    assert_eq!(frame.headers.get_id().unwrap().0, "stomp-rs/3");
    assert_eq!(frame.headers.get_ack().unwrap().0, "client-individual");
}

#[test]
fn send_frame_counts_its_body() {
    let frame = Frame::send("/q/a", b"one\0two");
    assert_eq!(frame.headers.get_content_length().unwrap().0, 7);
    assert_eq!(frame.body, b"one\0two".to_vec());
}

#[test]
fn transaction_frames_name_the_transaction() {
    for (frame, command) in [
        (Frame::begin("tx/0"), Command::Begin),
        (Frame::commit("tx/0"), Command::Commit),
        (Frame::abort("tx/0"), Command::Abort),
    ] {
        assert_eq!(frame.command, command);
        assert_eq!(frame.headers.get_transaction().unwrap().0, "tx/0");
    }
}

#[test]
fn count_bytes_measures_the_wire_form_without_the_nul() {
    let frame = Frame::send("/q/a", b"hi");
    let mut buffer = BytesMut::new();
    frame.write(&mut buffer);
    assert_eq!(frame.count_bytes(), buffer.len() - 1);
}

#[test]
fn to_str_renders_text_bodies() {
    let frame = Frame::send("/q/a", b"hi");
    assert_eq!(frame.to_str(), "SEND\ndestination:/q/a\ncontent-length:2\n\nhi");
}

#[test]
fn to_str_replaces_binary_bodies() {
    let frame = Frame::send("/q/a", &[0xff, 0xfe][..]);
    assert!(frame.to_str().ends_with("<Binary content>"));
}

#[test]
fn transmission_write_appends_wire_bytes() {
    let mut buffer = BytesMut::new();
    Transmission::HeartBeat.write(&mut buffer);
    Transmission::ConnectionClosed.write(&mut buffer);
    Transmission::CompleteFrame(Frame::unsubscribe("stomp-rs/0")).write(&mut buffer);
    assert_eq!(&buffer[..], b"\nUNSUBSCRIBE\nid:stomp-rs/0\n\n\0");
}

#[test]
fn header_values_are_escaped_by_constructors() {
    let frame = Frame::send("/queue/with:colon", b"");
    assert_eq!(
        frame.headers.get_header("destination").unwrap().get_value(),
        r"/queue/with\ccolon"
    );
}
