use vstd::prelude::*;
use vstd::string::StringSliceAdditionalSpecFns;
use vstd::utf8::encode_utf8;
use vstd::utf8::valid_utf8;
use vstd::utf8::decode_utf8;

use crate::byte_buffer::{bytes_mut_extend, bytes_mut_view};
use crate::decimal::{format_u32, spec_format_u32};
use crate::header::{
    Header, HeaderList, HeaderView, spec_encode_value, str_eq,
};
use crate::subscription::{AckMode, spec_ack_mode_text};
use bytes::BytesMut;

verus! {

/// A STOMP 1.2 command name.
#[derive(Copy, Clone, PartialEq, Eq, Structural, Debug)]
pub enum Command {
    Send,
    Subscribe,
    Unsubscribe,
    Begin,
    Commit,
    Abort,
    Ack,
    Nack,
    Disconnect,
    Connect,
    Stomp,
    Connected,
    Message,
    Receipt,
    Error,
}

/// The command line of each command, as written on the wire.
pub open spec fn spec_command_name(c: Command) -> Seq<char> {
    match c {
        Command::Send => "SEND"@,
        Command::Subscribe => "SUBSCRIBE"@,
        Command::Unsubscribe => "UNSUBSCRIBE"@,
        Command::Begin => "BEGIN"@,
        Command::Commit => "COMMIT"@,
        Command::Abort => "ABORT"@,
        Command::Ack => "ACK"@,
        Command::Nack => "NACK"@,
        Command::Disconnect => "DISCONNECT"@,
        Command::Connect => "CONNECT"@,
        Command::Stomp => "STOMP"@,
        Command::Connected => "CONNECTED"@,
        Command::Message => "MESSAGE"@,
        Command::Receipt => "RECEIPT"@,
        Command::Error => "ERROR"@,
    }
}

/// The command named by a command line, if any.
pub open spec fn spec_parse_command(s: Seq<char>) -> Option<Command> {
    if s == "SEND"@ {
        Some(Command::Send)
    } else if s == "SUBSCRIBE"@ {
        Some(Command::Subscribe)
    } else if s == "UNSUBSCRIBE"@ {
        Some(Command::Unsubscribe)
    } else if s == "BEGIN"@ {
        Some(Command::Begin)
    } else if s == "COMMIT"@ {
        Some(Command::Commit)
    } else if s == "ABORT"@ {
        Some(Command::Abort)
    } else if s == "ACK"@ {
        Some(Command::Ack)
    } else if s == "NACK"@ {
        Some(Command::Nack)
    } else if s == "DISCONNECT"@ {
        Some(Command::Disconnect)
    } else if s == "CONNECT"@ {
        Some(Command::Connect)
    } else if s == "STOMP"@ {
        Some(Command::Stomp)
    } else if s == "CONNECTED"@ {
        Some(Command::Connected)
    } else if s == "MESSAGE"@ {
        Some(Command::Message)
    } else if s == "RECEIPT"@ {
        Some(Command::Receipt)
    } else if s == "ERROR"@ {
        Some(Command::Error)
    } else {
        None
    }
}

/// Parsing a command's own name gives the command back.
pub proof fn lemma_parse_command_name(c: Command)
    ensures
        spec_parse_command(spec_command_name(c)) == Some(c),
{
    reveal_strlit("SEND");
    reveal_strlit("SUBSCRIBE");
    reveal_strlit("UNSUBSCRIBE");
    reveal_strlit("BEGIN");
    reveal_strlit("COMMIT");
    reveal_strlit("ABORT");
    reveal_strlit("ACK");
    reveal_strlit("NACK");
    reveal_strlit("DISCONNECT");
    reveal_strlit("CONNECT");
    reveal_strlit("STOMP");
    reveal_strlit("CONNECTED");
    reveal_strlit("MESSAGE");
    reveal_strlit("RECEIPT");
    reveal_strlit("ERROR");
    assert("SEND"@.len() == 4);
    assert("SUBSCRIBE"@.len() == 9);
    assert("UNSUBSCRIBE"@.len() == 11);
    assert("BEGIN"@.len() == 5);
    assert("COMMIT"@.len() == 6);
    assert("ABORT"@.len() == 5);
    assert("ACK"@.len() == 3);
    assert("NACK"@.len() == 4);
    assert("DISCONNECT"@.len() == 10);
    assert("CONNECT"@.len() == 7);
    assert("STOMP"@.len() == 5);
    assert("CONNECTED"@.len() == 9);
    assert("MESSAGE"@.len() == 7);
    assert("RECEIPT"@.len() == 7);
    assert("ERROR"@.len() == 5);
    assert("SEND"@[0] == 'S');
    assert("NACK"@[0] == 'N');
    assert("BEGIN"@[0] == 'B');
    assert("ABORT"@[0] == 'A');
    assert("STOMP"@[0] == 'S');
    assert("STOMP"@[1] == 'T');
    assert("ERROR"@[0] == 'E');
    assert("BEGIN"@[1] == 'E');
    assert("ABORT"@[1] == 'B');
    assert("ERROR"@[1] == 'R');
    assert("SUBSCRIBE"@[0] == 'S');
    assert("CONNECTED"@[0] == 'C');
    assert("CONNECT"@[0] == 'C');
    assert("MESSAGE"@[0] == 'M');
    assert("RECEIPT"@[0] == 'R');
    assert("CONNECT"@[1] == 'O');
    assert("MESSAGE"@[1] == 'E');
    assert("RECEIPT"@[1] == 'E');
    match c {
        Command::Send => {
            assert(spec_parse_command(spec_command_name(c)) == Some(c));
        },
        Command::Subscribe => {
            assert(spec_parse_command(spec_command_name(c)) == Some(c));
        },
        Command::Unsubscribe => {
            assert(spec_parse_command(spec_command_name(c)) == Some(c));
        },
        Command::Begin => {
            assert(spec_parse_command(spec_command_name(c)) == Some(c));
        },
        Command::Commit => {
            assert(spec_parse_command(spec_command_name(c)) == Some(c));
        },
        Command::Abort => {
            assert(spec_parse_command(spec_command_name(c)) == Some(c));
        },
        Command::Ack => {
            assert(spec_parse_command(spec_command_name(c)) == Some(c));
        },
        Command::Nack => {
            assert(spec_parse_command(spec_command_name(c)) == Some(c));
        },
        Command::Disconnect => {
            assert(spec_parse_command(spec_command_name(c)) == Some(c));
        },
        Command::Connect => {
            assert(spec_parse_command(spec_command_name(c)) == Some(c));
        },
        Command::Stomp => {
            assert(spec_parse_command(spec_command_name(c)) == Some(c));
        },
        Command::Connected => {
            assert(spec_parse_command(spec_command_name(c)) == Some(c));
        },
        Command::Message => {
            assert(spec_parse_command(spec_command_name(c)) == Some(c));
        },
        Command::Receipt => {
            assert(spec_parse_command(spec_command_name(c)) == Some(c));
        },
        Command::Error => {
            assert(spec_parse_command(spec_command_name(c)) == Some(c));
        },
    }
}

/// Every command name is a short, nonempty line of printable ASCII: no
/// newline or carriage return occurs in it.
pub proof fn lemma_command_name_plain(c: Command)
    ensures
        3 <= spec_command_name(c).len() <= 11,
        forall|i: int|
            0 <= i < spec_command_name(c).len() ==> #[trigger] spec_command_name(c)[i] as u32
                != 10 && spec_command_name(c)[i] as u32 != 13,
{
    reveal_strlit("SEND");
    reveal_strlit("SUBSCRIBE");
    reveal_strlit("UNSUBSCRIBE");
    reveal_strlit("BEGIN");
    reveal_strlit("COMMIT");
    reveal_strlit("ABORT");
    reveal_strlit("ACK");
    reveal_strlit("NACK");
    reveal_strlit("DISCONNECT");
    reveal_strlit("CONNECT");
    reveal_strlit("STOMP");
    reveal_strlit("CONNECTED");
    reveal_strlit("MESSAGE");
    reveal_strlit("RECEIPT");
    reveal_strlit("ERROR");
    match c {
        Command::Send => {},
        Command::Subscribe => {},
        Command::Unsubscribe => {},
        Command::Begin => {},
        Command::Commit => {},
        Command::Abort => {},
        Command::Ack => {},
        Command::Nack => {},
        Command::Disconnect => {},
        Command::Connect => {},
        Command::Stomp => {},
        Command::Connected => {},
        Command::Message => {},
        Command::Receipt => {},
        Command::Error => {},
    }
}

impl Command {
    pub fn as_str(&self) -> (r: &'static str)
        ensures
            r@ == spec_command_name(*self),
    {
        match *self {
            Command::Send => "SEND",
            Command::Subscribe => "SUBSCRIBE",
            Command::Unsubscribe => "UNSUBSCRIBE",
            Command::Begin => "BEGIN",
            Command::Commit => "COMMIT",
            Command::Abort => "ABORT",
            Command::Ack => "ACK",
            Command::Nack => "NACK",
            Command::Disconnect => "DISCONNECT",
            Command::Connect => "CONNECT",
            Command::Stomp => "STOMP",
            Command::Connected => "CONNECTED",
            Command::Message => "MESSAGE",
            Command::Receipt => "RECEIPT",
            Command::Error => "ERROR",
        }
    }

    /// The command a received command line names, if any.
    pub fn from_name(s: &str) -> (r: Option<Command>)
        ensures
            r == spec_parse_command(s@),
    {
        if str_eq(s, "SEND") {
            Some(Command::Send)
        } else if str_eq(s, "SUBSCRIBE") {
            Some(Command::Subscribe)
        } else if str_eq(s, "UNSUBSCRIBE") {
            Some(Command::Unsubscribe)
        } else if str_eq(s, "BEGIN") {
            Some(Command::Begin)
        } else if str_eq(s, "COMMIT") {
            Some(Command::Commit)
        } else if str_eq(s, "ABORT") {
            Some(Command::Abort)
        } else if str_eq(s, "ACK") {
            Some(Command::Ack)
        } else if str_eq(s, "NACK") {
            Some(Command::Nack)
        } else if str_eq(s, "DISCONNECT") {
            Some(Command::Disconnect)
        } else if str_eq(s, "CONNECT") {
            Some(Command::Connect)
        } else if str_eq(s, "STOMP") {
            Some(Command::Stomp)
        } else if str_eq(s, "CONNECTED") {
            Some(Command::Connected)
        } else if str_eq(s, "MESSAGE") {
            Some(Command::Message)
        } else if str_eq(s, "RECEIPT") {
            Some(Command::Receipt)
        } else if str_eq(s, "ERROR") {
            Some(Command::Error)
        } else {
            None
        }
    }
}

/// A value that can serve as the body of an outbound frame.
pub trait ToFrameBody {
    /// The bytes the value stands for.
    spec fn spec_body(&self) -> Seq<u8>;

    fn to_frame_body<'a>(&'a self) -> (r: &'a [u8])
        ensures
            r@ == self.spec_body(),
    ;
}

impl<'b> ToFrameBody for &'b [u8] {
    open spec fn spec_body(&self) -> Seq<u8> {
        (*self)@
    }

    fn to_frame_body<'a>(&'a self) -> (r: &'a [u8]) {
        *self
    }
}

impl<'b> ToFrameBody for &'b str {
    open spec fn spec_body(&self) -> Seq<u8> {
        encode_utf8((*self)@)
    }

    fn to_frame_body<'a>(&'a self) -> (r: &'a [u8]) {
        self.as_bytes()
    }
}

impl ToFrameBody for String {
    open spec fn spec_body(&self) -> Seq<u8> {
        encode_utf8(self@)
    }

    fn to_frame_body<'a>(&'a self) -> (r: &'a [u8]) {
        self.as_str().as_bytes()
    }
}

/// The mathematical content of a frame.
#[verifier::ext_equal]
pub ghost struct FrameView {
    pub command: Command,
    pub headers: Seq<HeaderView>,
    pub body: Seq<u8>,
}

/// One protocol message: a command, its headers, and a body.
#[derive(Debug)]
pub struct Frame {
    pub command: Command,
    pub headers: HeaderList,
    pub body: Vec<u8>,
}

impl View for Frame {
    type V = FrameView;

    open spec fn view(&self) -> FrameView {
        FrameView { command: self.command, headers: self.headers@, body: self.body@ }
    }
}

impl Clone for Frame {
    fn clone(&self) -> (r: Self)
        ensures
            r@ == self@,
    {
        let mut body: Vec<u8> = Vec::with_capacity(self.body.len());
        let mut i: usize = 0;
        while i < self.body.len()
            invariant
                0 <= i <= self.body@.len(),
                body@ == self.body@.take(i as int),
            decreases self.body@.len() - i,
        {
            body.push(self.body[i]);
            proof {
                assert(body@ =~= self.body@.take(i as int + 1));
            }
            i = i + 1;
        }
        proof {
            assert(self.body@.take(self.body@.len() as int) =~= self.body@);
        }
        Frame { command: self.command, headers: self.headers.clone(), body }
    }
}

/// One unit on the wire: a heartbeat, a complete frame, or the observation
/// that the peer closed the stream (which never carries bytes itself).
#[derive(Debug)]
pub enum Transmission {
    HeartBeat,
    CompleteFrame(Frame),
    ConnectionClosed,
}

/// The wire bytes of one header line: the UTF-8 bytes of `key:value`,
/// then a newline.
pub open spec fn spec_header_wire(h: HeaderView) -> Seq<u8> {
    encode_utf8(h.key + seq![':'] + h.value) + seq![10u8]
}

/// The wire bytes of a header block, in order.
pub open spec fn spec_headers_wire(hs: Seq<HeaderView>) -> Seq<u8>
    decreases hs.len(),
{
    if hs.len() == 0 {
        Seq::<u8>::empty()
    } else {
        spec_header_wire(hs[0]) + spec_headers_wire(hs.skip(1))
    }
}

pub proof fn lemma_headers_wire_snoc(hs: Seq<HeaderView>, h: HeaderView)
    ensures
        spec_headers_wire(hs.push(h)) == spec_headers_wire(hs) + spec_header_wire(h),
    decreases hs.len(),
{
    if hs.len() == 0 {
        assert(hs.push(h)[0] == h);
        assert(hs.push(h).skip(1) =~= Seq::<HeaderView>::empty());
        assert(spec_headers_wire(Seq::<HeaderView>::empty()) == Seq::<u8>::empty());
        assert(spec_headers_wire(hs.push(h)) =~= spec_headers_wire(hs) + spec_header_wire(h));
    } else {
        lemma_headers_wire_snoc(hs.skip(1), h);
        assert(hs.push(h)[0] == hs[0]);
        assert(hs.push(h).skip(1) =~= hs.skip(1).push(h));
        assert(spec_headers_wire(hs.push(h)) =~= spec_headers_wire(hs) + spec_header_wire(h));
    }
}

pub proof fn lemma_headers_wire_split(hs: Seq<HeaderView>, i: int)
    requires
        0 <= i <= hs.len(),
    ensures
        spec_headers_wire(hs) == spec_headers_wire(hs.take(i)) + spec_headers_wire(hs.skip(i)),
    decreases i,
{
    if i == 0 {
        assert(hs.take(0) =~= Seq::<HeaderView>::empty());
        assert(hs.skip(0) =~= hs);
        assert(spec_headers_wire(hs) =~= spec_headers_wire(hs.take(0)) + spec_headers_wire(hs));
    } else {
        lemma_headers_wire_split(hs.skip(1), i - 1);
        assert(hs.take(i)[0] == hs[0]);
        assert(hs.take(i).skip(1) =~= hs.skip(1).take(i - 1));
        assert(hs.skip(i) =~= hs.skip(1).skip(i - 1));
        assert(spec_headers_wire(hs) =~= spec_headers_wire(hs.take(i)) + spec_headers_wire(
            hs.skip(i),
        ));
    }
}

/// The wire bytes of a whole frame: command line, header block, blank line,
/// body, NUL.
pub open spec fn spec_frame_wire(f: FrameView) -> Seq<u8> {
    encode_utf8(spec_command_name(f.command)) + seq![10u8] + spec_headers_wire(f.headers) + seq![
        10u8,
    ] + f.body + seq![0u8]
}

/// The wire bytes of one transmission; observing a closed connection puts
/// nothing on the wire.
pub open spec fn spec_transmission_wire(t: &Transmission) -> Seq<u8> {
    match t {
        Transmission::HeartBeat => seq![10u8],
        Transmission::CompleteFrame(f) => spec_frame_wire(f@),
        Transmission::ConnectionClosed => Seq::<u8>::empty(),
    }
}

impl Transmission {
    /// Append this transmission's wire bytes to the outbound buffer.
    pub fn write(&self, out: &mut BytesMut)
        ensures
            bytes_mut_view(*final(out)) == bytes_mut_view(*old(out)) + spec_transmission_wire(
                self,
            ),
    {
        match self {
            Transmission::HeartBeat => {
                let newline: Vec<u8> = vec![10u8];
                bytes_mut_extend(out, newline.as_slice());
            },
            Transmission::CompleteFrame(frame) => frame.write(out),
            Transmission::ConnectionClosed => {
                proof {
                    assert(bytes_mut_view(*out) =~= bytes_mut_view(*old(out))
                        + spec_transmission_wire(self));
                }
            },
        }
    }
}

/// The text rendering of a header block, one `key:value` line each.
pub open spec fn spec_headers_text(hs: Seq<HeaderView>) -> Seq<char>
    decreases hs.len(),
{
    if hs.len() == 0 {
        Seq::<char>::empty()
    } else {
        hs[0].key + seq![':'] + hs[0].value + seq!['\n'] + spec_headers_text(hs.skip(1))
    }
}

pub proof fn lemma_headers_text_snoc(hs: Seq<HeaderView>, h: HeaderView)
    ensures
        spec_headers_text(hs.push(h)) == spec_headers_text(hs) + h.key + seq![':'] + h.value
            + seq!['\n'],
    decreases hs.len(),
{
    if hs.len() == 0 {
        assert(hs.push(h)[0] == h);
        assert(hs.push(h).skip(1) =~= Seq::<HeaderView>::empty());
        assert(spec_headers_text(Seq::<HeaderView>::empty()) == Seq::<char>::empty());
        assert(spec_headers_text(hs.push(h)) =~= spec_headers_text(hs) + h.key + seq![':']
            + h.value + seq!['\n']);
    } else {
        lemma_headers_text_snoc(hs.skip(1), h);
        assert(hs.push(h)[0] == hs[0]);
        assert(hs.push(h).skip(1) =~= hs.skip(1).push(h));
        assert(spec_headers_text(hs.push(h)) =~= spec_headers_text(hs) + h.key + seq![':']
            + h.value + seq!['\n']);
    }
}

/// The display form of a frame: its wire text, with a placeholder when the
/// body is not valid UTF-8, and no trailing NUL.
pub open spec fn spec_frame_text(f: FrameView) -> Seq<char> {
    spec_command_name(f.command) + seq!['\n'] + spec_headers_text(f.headers) + seq!['\n'] + (
    if valid_utf8(f.body) {
        decode_utf8(f.body)
    } else {
        "<Binary content>"@
    })
}

#[verifier::external_type_specification]
#[verifier::external_body]
pub struct ExUtf8Error(core::str::Utf8Error);

/// Relies on core::str::from_utf8: `Ok` exactly on valid UTF-8, and the
/// returned string's bytes are the input bytes.
pub assume_specification[ core::str::from_utf8 ](v: &[u8]) -> (r: Result<
    &str,
    core::str::Utf8Error,
>)
    ensures
        r is Ok <==> valid_utf8(v@),
        r matches Ok(s) ==> s.spec_bytes() == v@,
;

impl Frame {
    /// The size of the frame's wire form without the trailing NUL, which is
    /// also the length of its display text when the body is valid UTF-8.
    pub fn count_bytes(&self) -> (r: usize)
        requires
            spec_frame_wire(self@).len() <= usize::MAX,
        ensures
            r == spec_frame_wire(self@).len() - 1,
    {
        let ghost total = spec_frame_wire(self@).len() as int;
        let mut space_required: usize = self.command.as_str().len() + 1;
        let ghost hs = self@.headers;
        let mut i: usize = 0;
        proof {
            lemma_headers_wire_split(hs, 0);
            assert(hs.take(0) =~= Seq::<HeaderView>::empty());
        }
        while i < self.headers.headers.len()
            invariant
                0 <= i <= hs.len(),
                hs == self@.headers,
                hs.len() == self.headers.headers@.len(),
                total == spec_frame_wire(self@).len(),
                total <= usize::MAX,
                space_required == encode_utf8(spec_command_name(self@.command)).len() + 1
                    + spec_headers_wire(hs.take(i as int)).len(),
                space_required + spec_headers_wire(hs.skip(i as int)).len() + 2 + self@.body.len()
                    == total,
            decreases hs.len() - i,
        {
            proof {
                assert(hs.skip(i as int)[0] == hs[i as int]);
                assert(hs.skip(i as int).skip(1) =~= hs.skip(i as int + 1));
                assert(hs.take(i as int + 1) =~= hs.take(i as int).push(hs[i as int]));
                lemma_headers_wire_snoc(hs.take(i as int), hs[i as int]);
            }
            let raw = self.headers.headers[i].get_raw();
            proof {
                assert(raw@ =~= hs[i as int].key + seq![':'] + hs[i as int].value);
            }
            space_required = space_required + (raw.as_str().len() + 1);
            i = i + 1;
        }
        proof {
            assert(hs.take(hs.len() as int) =~= hs);
            assert(hs.skip(hs.len() as int) =~= Seq::<HeaderView>::empty());
        }
        space_required = space_required + 1;
        space_required = space_required + self.body.len();
        space_required
    }

    /// The frame as text: command line, header lines, blank line, and the
    /// body, or a placeholder when the body is not valid UTF-8.
    pub fn to_str(&self) -> (r: String)
        ensures
            r@ == spec_frame_text(self@),
    {
        proof {
            reveal_strlit("\n");
        }
        let mut frame_string = String::from_str(self.command.as_str());
        frame_string.append("\n");
        let ghost hs = self@.headers;
        let ghost head = spec_command_name(self@.command) + seq!['\n'];
        proof {
            assert(frame_string@ =~= head + spec_headers_text(hs.take(0)));
            assert(hs.take(0) =~= Seq::<HeaderView>::empty());
            assert(frame_string@ =~= head);
        }
        let mut i: usize = 0;
        while i < self.headers.headers.len()
            invariant
                0 <= i <= hs.len(),
                hs == self@.headers,
                hs.len() == self.headers.headers@.len(),
                head == spec_command_name(self@.command) + seq!['\n'],
                frame_string@ == head + spec_headers_text(hs.take(i as int)),
            decreases hs.len() - i,
        {
            proof {
                reveal_strlit("\n");
                assert(hs.take(i as int + 1) =~= hs.take(i as int).push(hs[i as int]));
                lemma_headers_text_snoc(hs.take(i as int), hs[i as int]);
            }
            let raw = self.headers.headers[i].get_raw();
            frame_string.append(raw.as_str());
            frame_string.append("\n");
            proof {
                assert(frame_string@ =~= head + spec_headers_text(hs.take(i as int + 1)));
            }
            i = i + 1;
        }
        proof {
            assert(hs.take(hs.len() as int) =~= hs);
        }
        frame_string.append("\n");
        match core::str::from_utf8(self.body.as_slice()) {
            Ok(body_str) => {
                proof {
                    broadcast use vstd::utf8::encode_utf8_decode_utf8;

                    assert(decode_utf8(self@.body) == body_str@);
                }
                frame_string.append(body_str);
            },
            Err(_) => {
                frame_string.append("<Binary content>");
            },
        }
        proof {
            assert(frame_string@ =~= spec_frame_text(self@));
        }
        frame_string
    }

    /// Append the frame's wire bytes to the outbound buffer.
    pub fn write(&self, out: &mut BytesMut)
        ensures
            bytes_mut_view(*final(out)) == bytes_mut_view(*old(out)) + spec_frame_wire(self@),
    {
        let ghost base = bytes_mut_view(*old(out));
        let newline: Vec<u8> = vec![10u8];
        bytes_mut_extend(out, self.command.as_str().as_bytes());
        bytes_mut_extend(out, newline.as_slice());
        let ghost hs = self@.headers;
        let ghost head = base + encode_utf8(spec_command_name(self@.command)) + seq![10u8];
        proof {
            assert(bytes_mut_view(*out) =~= head);
            assert(hs.take(0) =~= Seq::<HeaderView>::empty());
            assert(bytes_mut_view(*out) =~= head + spec_headers_wire(hs.take(0)));
        }
        let mut i: usize = 0;
        while i < self.headers.headers.len()
            invariant
                0 <= i <= hs.len(),
                hs == self@.headers,
                hs.len() == self.headers.headers@.len(),
                newline@ == seq![10u8],
                head == base + encode_utf8(spec_command_name(self@.command)) + seq![10u8],
                bytes_mut_view(*out) == head + spec_headers_wire(hs.take(i as int)),
            decreases hs.len() - i,
        {
            proof {
                assert(hs.take(i as int + 1) =~= hs.take(i as int).push(hs[i as int]));
                lemma_headers_wire_snoc(hs.take(i as int), hs[i as int]);
            }
            let raw = self.headers.headers[i].get_raw();
            proof {
                assert(raw@ =~= hs[i as int].key + seq![':'] + hs[i as int].value);
            }
            bytes_mut_extend(out, raw.as_str().as_bytes());
            bytes_mut_extend(out, newline.as_slice());
            proof {
                assert(bytes_mut_view(*out) =~= head + spec_headers_wire(hs.take(i as int + 1)));
            }
            i = i + 1;
        }
        proof {
            assert(hs.take(hs.len() as int) =~= hs);
        }
        bytes_mut_extend(out, newline.as_slice());
        bytes_mut_extend(out, self.body.as_slice());
        let nul: Vec<u8> = vec![0u8];
        bytes_mut_extend(out, nul.as_slice());
        proof {
            assert(bytes_mut_view(*out) =~= base + spec_frame_wire(self@));
        }
    }

    /// The CONNECT frame: protocol version, the requested heartbeat, and an
    /// explicit zero content length.
    pub fn connect(tx_heartbeat_ms: u32, rx_heartbeat_ms: u32) -> (r: Frame)
        ensures
            r@.command == Command::Connect,
            r@.body == Seq::<u8>::empty(),
            r@.headers == seq![
                (HeaderView { key: "accept-version"@, value: "1.2"@ }),
                (HeaderView {
                    key: "heart-beat"@,
                    value: spec_format_u32(tx_heartbeat_ms as nat) + seq![','] + spec_format_u32(
                        rx_heartbeat_ms as nat,
                    ),
                }),
                (HeaderView { key: "content-length"@, value: "0"@ }),
            ],
    {
        proof {
            reveal_strlit(",");
        }
        let mut heart_beat = format_u32(tx_heartbeat_ms);
        heart_beat.append(",");
        heart_beat.append(format_u32(rx_heartbeat_ms).as_str());
        let mut headers = HeaderList::new();
        headers.push(
            Header::new_raw(String::from_str("accept-version"), String::from_str("1.2")),
        );
        headers.push(Header::new_raw(String::from_str("heart-beat"), heart_beat));
        headers.push(Header::new_raw(String::from_str("content-length"), String::from_str("0")));
        let connect_frame = Frame { command: Command::Connect, headers, body: Vec::new() };
        proof {
            assert(connect_frame@.headers[1].value =~= spec_format_u32(tx_heartbeat_ms as nat)
                + seq![','] + spec_format_u32(rx_heartbeat_ms as nat));
            assert(connect_frame@.headers =~= seq![
                (HeaderView { key: "accept-version"@, value: "1.2"@ }),
                (HeaderView {
                    key: "heart-beat"@,
                    value: spec_format_u32(tx_heartbeat_ms as nat) + seq![','] + spec_format_u32(
                        rx_heartbeat_ms as nat,
                    ),
                }),
                (HeaderView { key: "content-length"@, value: "0"@ }),
            ]);
        }
        connect_frame
    }

    /// The DISCONNECT frame, asking for a receipt under the fixed
    /// `msg/disconnect` id.
    pub fn disconnect() -> (r: Frame)
        ensures
            r@.command == Command::Disconnect,
            r@.body == Seq::<u8>::empty(),
            r@.headers == seq![(HeaderView { key: "receipt"@, value: "msg/disconnect"@ })],
    {
        let mut headers = HeaderList::new();
        headers.push(Header::new_raw(String::from_str("receipt"), String::from_str("msg/disconnect")));
        let disconnect_frame = Frame { command: Command::Disconnect, headers, body: Vec::new() };
        proof {
            assert(disconnect_frame@.headers =~= seq![
                (HeaderView { key: "receipt"@, value: "msg/disconnect"@ }),
            ]);
        }
        disconnect_frame
    }

    /// The SUBSCRIBE frame for one destination under a fresh subscription id.
    pub fn subscribe(subscription_id: &str, destination: &str, ack_mode: AckMode) -> (r: Frame)
        ensures
            r@.command == Command::Subscribe,
            r@.body == Seq::<u8>::empty(),
            r@.headers == seq![
                (HeaderView { key: "destination"@, value: spec_encode_value(destination@) }),
                (HeaderView { key: "id"@, value: spec_encode_value(subscription_id@) }),
                (HeaderView { key: "ack"@, value: spec_ack_mode_text(ack_mode) }),
            ],
    {
        let mut headers = HeaderList::new();
        headers.push(
            Header::new_raw(String::from_str("destination"), Header::encode_value(destination)),
        );
        headers.push(Header::new_raw(String::from_str("id"), Header::encode_value(subscription_id)));
        headers.push(
            Header::new_raw(String::from_str("ack"), String::from_str(ack_mode.as_text())),
        );
        let subscribe_frame = Frame { command: Command::Subscribe, headers, body: Vec::new() };
        proof {
            assert(subscribe_frame@.headers =~= seq![
                (HeaderView { key: "destination"@, value: spec_encode_value(destination@) }),
                (HeaderView { key: "id"@, value: spec_encode_value(subscription_id@) }),
                (HeaderView { key: "ack"@, value: spec_ack_mode_text(ack_mode) }),
            ]);
        }
        subscribe_frame
    }

    /// The UNSUBSCRIBE frame for a subscription id.
    pub fn unsubscribe(subscription_id: &str) -> (r: Frame)
        ensures
            r@.command == Command::Unsubscribe,
            r@.body == Seq::<u8>::empty(),
            r@.headers == seq![
                (HeaderView { key: "id"@, value: spec_encode_value(subscription_id@) }),
            ],
    {
        let mut headers = HeaderList::new();
        headers.push(Header::new_raw(String::from_str("id"), Header::encode_value(subscription_id)));
        let unsubscribe_frame = Frame { command: Command::Unsubscribe, headers, body: Vec::new() };
        proof {
            assert(unsubscribe_frame@.headers =~= seq![
                (HeaderView { key: "id"@, value: spec_encode_value(subscription_id@) }),
            ]);
        }
        unsubscribe_frame
    }

    /// The ACK frame for one ack id.
    pub fn ack(ack_id: &str) -> (r: Frame)
        ensures
            r@.command == Command::Ack,
            r@.body == Seq::<u8>::empty(),
            r@.headers == seq![(HeaderView { key: "id"@, value: spec_encode_value(ack_id@) })],
    {
        let mut headers = HeaderList::new();
        headers.push(Header::new_raw(String::from_str("id"), Header::encode_value(ack_id)));
        let ack_frame = Frame { command: Command::Ack, headers, body: Vec::new() };
        proof {
            assert(ack_frame@.headers =~= seq![
                (HeaderView { key: "id"@, value: spec_encode_value(ack_id@) }),
            ]);
        }
        ack_frame
    }

    /// The NACK frame for one ack id.
    pub fn nack(message_id: &str) -> (r: Frame)
        ensures
            r@.command == Command::Nack,
            r@.body == Seq::<u8>::empty(),
            r@.headers == seq![(HeaderView { key: "id"@, value: spec_encode_value(message_id@) })],
    {
        let mut headers = HeaderList::new();
        headers.push(Header::new_raw(String::from_str("id"), Header::encode_value(message_id)));
        let nack_frame = Frame { command: Command::Nack, headers, body: Vec::new() };
        proof {
            assert(nack_frame@.headers =~= seq![
                (HeaderView { key: "id"@, value: spec_encode_value(message_id@) }),
            ]);
        }
        nack_frame
    }

    /// The SEND frame: destination and content length, so that bodies with
    /// embedded NUL bytes frame correctly.
    pub fn send(destination: &str, body: &[u8]) -> (r: Frame)
        requires
            body@.len() <= u32::MAX,
        ensures
            r@.command == Command::Send,
            r@.body == body@,
            r@.headers == seq![
                (HeaderView { key: "destination"@, value: spec_encode_value(destination@) }),
                (HeaderView {
                    key: "content-length"@,
                    value: spec_format_u32(body@.len() as nat),
                }),
            ],
    {
        let mut headers = HeaderList::new();
        headers.push(
            Header::new_raw(String::from_str("destination"), Header::encode_value(destination)),
        );
        let length = format_u32(body.len() as u32);
        headers.push(Header::new_raw(String::from_str("content-length"), length));
        let mut body_vec: Vec<u8> = Vec::with_capacity(body.len());
        let mut i: usize = 0;
        while i < body.len()
            invariant
                0 <= i <= body@.len(),
                body_vec@ == body@.take(i as int),
            decreases body@.len() - i,
        {
            body_vec.push(body[i]);
            proof {
                assert(body_vec@ =~= body@.take(i as int + 1));
            }
            i = i + 1;
        }
        proof {
            assert(body@.take(body@.len() as int) =~= body@);
        }
        let send_frame = Frame { command: Command::Send, headers, body: body_vec };
        proof {
            assert(send_frame@.headers =~= seq![
                (HeaderView { key: "destination"@, value: spec_encode_value(destination@) }),
                (HeaderView {
                    key: "content-length"@,
                    value: spec_format_u32(body@.len() as nat),
                }),
            ]);
        }
        send_frame
    }

    /// The BEGIN frame opening a transaction.
    pub fn begin(transaction_id: &str) -> (r: Frame)
        ensures
            r@.command == Command::Begin,
            r@.body == Seq::<u8>::empty(),
            r@.headers == seq![
                (HeaderView { key: "transaction"@, value: spec_encode_value(transaction_id@) }),
            ],
    {
        let mut headers = HeaderList::new();
        headers.push(
            Header::new_raw(String::from_str("transaction"), Header::encode_value(transaction_id)),
        );
        let begin_frame = Frame { command: Command::Begin, headers, body: Vec::new() };
        proof {
            assert(begin_frame@.headers =~= seq![
                (HeaderView { key: "transaction"@, value: spec_encode_value(transaction_id@) }),
            ]);
        }
        begin_frame
    }

    /// The ABORT frame discarding a transaction.
    pub fn abort(transaction_id: &str) -> (r: Frame)
        ensures
            r@.command == Command::Abort,
            r@.body == Seq::<u8>::empty(),
            r@.headers == seq![
                (HeaderView { key: "transaction"@, value: spec_encode_value(transaction_id@) }),
            ],
    {
        let mut headers = HeaderList::new();
        headers.push(
            Header::new_raw(String::from_str("transaction"), Header::encode_value(transaction_id)),
        );
        let abort_frame = Frame { command: Command::Abort, headers, body: Vec::new() };
        proof {
            assert(abort_frame@.headers =~= seq![
                (HeaderView { key: "transaction"@, value: spec_encode_value(transaction_id@) }),
            ]);
        }
        abort_frame
    }

    /// The COMMIT frame completing a transaction.
    pub fn commit(transaction_id: &str) -> (r: Frame)
        ensures
            r@.command == Command::Commit,
            r@.body == Seq::<u8>::empty(),
            r@.headers == seq![
                (HeaderView { key: "transaction"@, value: spec_encode_value(transaction_id@) }),
            ],
    {
        let mut headers = HeaderList::new();
        headers.push(
            Header::new_raw(String::from_str("transaction"), Header::encode_value(transaction_id)),
        );
        let commit_frame = Frame { command: Command::Commit, headers, body: Vec::new() };
        proof {
            assert(commit_frame@.headers =~= seq![
                (HeaderView { key: "transaction"@, value: spec_encode_value(transaction_id@) }),
            ]);
        }
        commit_frame
    }
}

} // verus!
