use vstd::prelude::*;
use vstd::slice::slice_to_vec;
use vstd::string::StringSliceAdditionalSpecFns;
use vstd::utf8::decode_utf8;
use vstd::utf8::valid_utf8;

use vstd::utf8::encode_utf8;

use crate::byte_buffer::{bytes_mut_advance, bytes_mut_to_vec, bytes_mut_view};
use crate::decimal::spec_parse_u32;
use crate::frame::{
    Command, Frame, FrameView, Transmission, lemma_command_name_plain, lemma_parse_command_name,
    spec_command_name, spec_frame_wire, spec_header_wire, spec_headers_wire, spec_parse_command,
    spec_transmission_wire,
};
use crate::header::{
    Header, HeaderList, HeaderView, found_sep_at, lemma_decode_value_plain,
    lemma_found_sep_at_unique, spec_decode_header_line, spec_header_value,
};
use bytes::BytesMut;

verus! {

/// The outcome class of one decoding attempt.
#[derive(Clone, Copy, PartialEq, Eq, Structural, Debug)]
pub enum ParseStatus {
    /// More bytes are needed; nothing is consumed.
    Incomplete,
    /// The bytes cannot be part of a well-formed transmission.
    Malformed,
    /// A complete item was recognised.
    Done,
}

/// What a parsed header block amounts to.
#[verifier::ext_equal]
pub ghost struct HeadersParse {
    pub status: ParseStatus,
    pub headers: Seq<HeaderView>,
    pub consumed: int,
}

/// What a parsed body amounts to.
#[verifier::ext_equal]
pub ghost struct BodyParse {
    pub status: ParseStatus,
    pub body: Seq<u8>,
    pub consumed: int,
}

/// The kind of a parsed transmission.
#[derive(Clone, Copy, PartialEq, Eq, Structural, Debug)]
pub enum DecodeStatus {
    Incomplete,
    Malformed,
    HeartBeat,
    Frame,
}

/// What one decoding attempt on a buffer amounts to.
#[verifier::ext_equal]
pub ghost struct TransmissionParse {
    pub status: DecodeStatus,
    pub frame: FrameView,
    pub consumed: int,
}

/// The error with which the session gives up on a stream whose bytes cannot
/// be a STOMP transmission: a malformed header or escape, an unknown command,
/// or an unusable `content-length`.
#[derive(Clone, Copy, PartialEq, Eq, Structural, Debug)]
pub struct DecodeError;

/// Whether `s[i]` is the first occurrence of `needle` in `s`.
pub open spec fn found_byte_at(s: Seq<u8>, needle: u8, i: int) -> bool {
    &&& 0 <= i < s.len()
    &&& s[i] == needle
    &&& forall|j: int| 0 <= j < i ==> s[j] != needle
}

pub proof fn lemma_found_byte_at_unique(s: Seq<u8>, needle: u8, c1: int, c2: int)
    requires
        found_byte_at(s, needle, c1),
        found_byte_at(s, needle, c2),
    ensures
        c1 == c2,
{
}

/// The length of the run of complete line endings (`\n` or `\r\n`) at the
/// start of the buffer.
pub open spec fn spec_heartbeat_len(b: Seq<u8>) -> int
    decreases b.len(),
{
    if b.len() >= 1 && b[0] == 10 {
        1 + spec_heartbeat_len(b.skip(1))
    } else if b.len() >= 2 && b[0] == 13 && b[1] == 10 {
        2 + spec_heartbeat_len(b.skip(2))
    } else {
        0
    }
}

/// A line with one trailing carriage return removed.
pub open spec fn spec_strip_cr(line: Seq<u8>) -> Seq<u8> {
    if line.len() > 0 && line.last() == 13 {
        line.drop_last()
    } else {
        line
    }
}

/// Parse `key:value` lines until the empty line that ends the header block.
pub open spec fn spec_parse_headers(b: Seq<u8>) -> HeadersParse
    decreases b.len(),
{
    if !(exists|i: int| found_byte_at(b, 10, i)) {
        HeadersParse {
            status: ParseStatus::Incomplete,
            headers: Seq::<HeaderView>::empty(),
            consumed: 0,
        }
    } else {
        let i = choose|i: int| found_byte_at(b, 10, i);
        let line = spec_strip_cr(b.take(i));
        if line.len() == 0 {
            HeadersParse {
                status: ParseStatus::Done,
                headers: Seq::<HeaderView>::empty(),
                consumed: i + 1,
            }
        } else if !valid_utf8(line) {
            HeadersParse {
                status: ParseStatus::Malformed,
                headers: Seq::<HeaderView>::empty(),
                consumed: 0,
            }
        } else {
            match spec_decode_header_line(decode_utf8(line)) {
                None => HeadersParse {
                    status: ParseStatus::Malformed,
                    headers: Seq::<HeaderView>::empty(),
                    consumed: 0,
                },
                Some(h) => {
                    let rest = spec_parse_headers(b.skip(i + 1));
                    if rest.status is Done {
                        HeadersParse {
                            status: ParseStatus::Done,
                            headers: seq![h] + rest.headers,
                            consumed: i + 1 + rest.consumed,
                        }
                    } else {
                        rest
                    }
                },
            }
        }
    }
}

pub proof fn lemma_parse_headers_consumed_bound(b: Seq<u8>)
    ensures
        spec_parse_headers(b).status is Done ==> 1 <= spec_parse_headers(b).consumed <= b.len(),
    decreases b.len(),
{
    if exists|i: int| found_byte_at(b, 10, i) {
        let i = choose|i: int| found_byte_at(b, 10, i);
        lemma_parse_headers_consumed_bound(b.skip(i + 1));
    }
}

/// Read the body: by `content-length` when that header is present and
/// parseable (then a single NUL must follow), malformed when present but not
/// parseable, and up to the first NUL otherwise.
pub open spec fn spec_parse_body(rest: Seq<u8>, headers: Seq<HeaderView>) -> BodyParse {
    match spec_header_value(headers, "content-length"@) {
        Some(v) => match spec_parse_u32(v) {
            None => BodyParse {
                status: ParseStatus::Malformed,
                body: Seq::<u8>::empty(),
                consumed: 0,
            },
            Some(n) => {
                if rest.len() <= n {
                    BodyParse {
                        status: ParseStatus::Incomplete,
                        body: Seq::<u8>::empty(),
                        consumed: 0,
                    }
                } else if rest[n as int] != 0 {
                    BodyParse {
                        status: ParseStatus::Malformed,
                        body: Seq::<u8>::empty(),
                        consumed: 0,
                    }
                } else {
                    BodyParse {
                        status: ParseStatus::Done,
                        body: rest.take(n as int),
                        consumed: n + 1,
                    }
                }
            },
        },
        None => {
            if exists|j: int| found_byte_at(rest, 0, j) {
                let j = choose|j: int| found_byte_at(rest, 0, j);
                BodyParse { status: ParseStatus::Done, body: rest.take(j), consumed: j + 1 }
            } else {
                BodyParse {
                    status: ParseStatus::Incomplete,
                    body: Seq::<u8>::empty(),
                    consumed: 0,
                }
            }
        },
    }
}

/// A placeholder frame for outcomes that carry none.
pub open spec fn spec_no_frame() -> FrameView {
    FrameView { command: Command::Send, headers: Seq::<HeaderView>::empty(), body: Seq::<u8>::empty() }
}

/// Decode one transmission from the front of the buffer: a run of line
/// endings is one heartbeat; otherwise a command line, a header block and a
/// body form one frame.
pub open spec fn spec_parse_transmission(b: Seq<u8>) -> TransmissionParse {
    let hb = spec_heartbeat_len(b);
    if hb > 0 {
        TransmissionParse { status: DecodeStatus::HeartBeat, frame: spec_no_frame(), consumed: hb }
    } else if !(exists|i: int| found_byte_at(b, 10, i)) {
        TransmissionParse { status: DecodeStatus::Incomplete, frame: spec_no_frame(), consumed: 0 }
    } else {
        let i = choose|i: int| found_byte_at(b, 10, i);
        let line = spec_strip_cr(b.take(i));
        if !valid_utf8(line) {
            TransmissionParse {
                status: DecodeStatus::Malformed,
                frame: spec_no_frame(),
                consumed: 0,
            }
        } else {
            match spec_parse_command(decode_utf8(line)) {
                None => TransmissionParse {
                    status: DecodeStatus::Malformed,
                    frame: spec_no_frame(),
                    consumed: 0,
                },
                Some(cmd) => {
                    let hp = spec_parse_headers(b.skip(i + 1));
                    if hp.status is Incomplete {
                        TransmissionParse {
                            status: DecodeStatus::Incomplete,
                            frame: spec_no_frame(),
                            consumed: 0,
                        }
                    } else if hp.status is Malformed {
                        TransmissionParse {
                            status: DecodeStatus::Malformed,
                            frame: spec_no_frame(),
                            consumed: 0,
                        }
                    } else {
                        let bp = spec_parse_body(b.skip(i + 1).skip(hp.consumed), hp.headers);
                        if bp.status is Incomplete {
                            TransmissionParse {
                                status: DecodeStatus::Incomplete,
                                frame: spec_no_frame(),
                                consumed: 0,
                            }
                        } else if bp.status is Malformed {
                            TransmissionParse {
                                status: DecodeStatus::Malformed,
                                frame: spec_no_frame(),
                                consumed: 0,
                            }
                        } else {
                            TransmissionParse {
                                status: DecodeStatus::Frame,
                                frame: FrameView {
                                    command: cmd,
                                    headers: hp.headers,
                                    body: bp.body,
                                },
                                consumed: i + 1 + hp.consumed + bp.consumed,
                            }
                        }
                    }
                },
            }
        }
    }
}

/// UTF-8 encoding distributes over concatenation.
pub proof fn lemma_encode_utf8_concat(a: Seq<char>, b: Seq<char>)
    ensures
        encode_utf8(a + b) == encode_utf8(a) + encode_utf8(b),
    decreases a.len(),
{
    if a.len() == 0 {
        assert(a + b =~= b);
        assert(encode_utf8(a) =~= Seq::<u8>::empty());
        assert(encode_utf8(a) + encode_utf8(b) =~= encode_utf8(b));
    } else {
        lemma_encode_utf8_concat(a.skip(1), b);
        assert((a + b)[0] == a[0]);
        assert((a + b).drop_first() =~= a.skip(1) + b);
        assert(a.drop_first() =~= a.skip(1));
        assert(encode_utf8(a + b) =~= encode_utf8(a) + encode_utf8(b));
    }
}

/// Encoding a nonempty string gives at least one byte per character.
pub proof fn lemma_encode_utf8_len_lower(s: Seq<char>)
    ensures
        encode_utf8(s).len() >= s.len(),
    decreases s.len(),
{
    if s.len() > 0 {
        lemma_encode_utf8_len_lower(s.drop_first());
        vstd::utf8::char_is_scalar(s[0]);
    }
}

/// An ASCII byte occurs in the encoding of a string only where the string
/// holds that very character: multi-byte encodings consist of bytes at 0x80
/// and above alone.
pub proof fn lemma_encode_ascii_byte_absent(chars: Seq<char>, k: u8)
    requires
        k < 0x80,
        forall|i: int| 0 <= i < chars.len() ==> #[trigger] chars[i] as u32 != k as u32,
    ensures
        forall|j: int|
            0 <= j < encode_utf8(chars).len() ==> #[trigger] encode_utf8(chars)[j] != k,
    decreases chars.len(),
{
    if chars.len() > 0 {
        lemma_encode_ascii_byte_absent(chars.drop_first(), k);
        vstd::utf8::char_is_scalar(chars[0]);
        let s = chars[0] as u32;
        let head = vstd::utf8::encode_scalar(s);
        assert(chars.drop_first()[0] as u32 == chars[1] as u32 || chars.len() == 1);
        if s < 0x80 {
            assert(s & 0x7F == s) by (bit_vector)
                requires
                    s < 0x80,
            ;
            assert(head =~= seq![(s & 0x7F) as u8]);
            assert(head[0] == s as u8);
            assert(s as u8 != k);
        } else {
            assert forall|j: int| 0 <= j < head.len() implies head[j] >= 0x80 by {
                lemma_scalar_bytes_high(s);
            }
        }
        assert forall|j: int| 0 <= j < encode_utf8(chars).len() implies #[trigger] encode_utf8(
            chars,
        )[j] != k by {
            if j < head.len() {
                assert(encode_utf8(chars)[j] == head[j]);
            } else {
                assert(encode_utf8(chars)[j] == encode_utf8(chars.drop_first())[j - head.len()]);
            }
        }
    }
}

/// Every byte of a multi-byte UTF-8 encoding has its high bit set.
proof fn lemma_scalar_bytes_high(s: u32)
    requires
        s >= 0x80,
    ensures
        forall|j: int|
            0 <= j < vstd::utf8::encode_scalar(s).len() ==> #[trigger] vstd::utf8::encode_scalar(
                s,
            )[j] >= 0x80,
{
    let bytes = vstd::utf8::encode_scalar(s);
    assert(0xC0u8 | ((s >> 6) & 0x1F) as u8 >= 0x80) by (bit_vector);
    assert(0xE0u8 | ((s >> 12) & 0x0F) as u8 >= 0x80) by (bit_vector);
    assert(0xF0u8 | ((s >> 18) & 0x7) as u8 >= 0x80) by (bit_vector);
    assert(0x80u8 | (s & 0x3F) as u8 >= 0x80) by (bit_vector);
    assert(0x80u8 | ((s >> 6) & 0x3F) as u8 >= 0x80) by (bit_vector);
    assert(0x80u8 | ((s >> 12) & 0x3F) as u8 >= 0x80) by (bit_vector);
}

/// A header key or value that needs no escaping and cannot break line
/// framing: no backslash, carriage return or newline.
pub open spec fn plain_chars(s: Seq<char>) -> bool {
    forall|i: int|
        0 <= i < s.len() ==> #[trigger] s[i] != '\\' && s[i] != '\r' && s[i] != '\n'
}

/// Headers in final wire form: no escape sequences anywhere and no colon in
/// a key.
pub open spec fn wire_safe_headers(hs: Seq<HeaderView>) -> bool {
    forall|i: int|
        0 <= i < hs.len() ==> plain_chars(#[trigger] hs[i].key) && plain_chars(hs[i].value) && (
        forall|j: int| 0 <= j < hs[i].key.len() ==> hs[i].key[j] != ':')
}

/// A frame that the decoder maps back to itself: its stored headers are in
/// final wire form, and its body frames correctly: a `content-length`
/// header, when present, gives the body's exact length, and without one the
/// body holds no NUL byte.
pub open spec fn wire_safe_frame(f: FrameView) -> bool {
    &&& wire_safe_headers(f.headers)
    &&& match spec_header_value(f.headers, "content-length"@) {
        Some(v) => spec_parse_u32(v) matches Some(n) && n == f.body.len(),
        None => forall|j: int| 0 <= j < f.body.len() ==> f.body[j] != 0,
    }
}

/// The wire bytes of one wire-safe header line parse back to that header,
/// whatever follows the block's closing blank line.
proof fn lemma_parse_headers_wire(hs: Seq<HeaderView>, tail: Seq<u8>)
    requires
        wire_safe_headers(hs),
    ensures
        spec_parse_headers(spec_headers_wire(hs) + seq![10u8] + tail) == (HeadersParse {
            status: ParseStatus::Done,
            headers: hs,
            consumed: spec_headers_wire(hs).len() as int + 1,
        }),
    decreases hs.len(),
{
    let b = spec_headers_wire(hs) + seq![10u8] + tail;
    if hs.len() == 0 {
        assert(spec_headers_wire(hs) == Seq::<u8>::empty());
        assert(b[0] == 10);
        assert(found_byte_at(b, 10, 0));
        let i = choose|i: int| found_byte_at(b, 10, i);
        lemma_found_byte_at_unique(b, 10, i, 0);
        assert(b.take(0) =~= Seq::<u8>::empty());
        assert(spec_strip_cr(b.take(0)).len() == 0);
        assert(spec_parse_headers(b) =~= (HeadersParse {
            status: ParseStatus::Done,
            headers: hs,
            consumed: spec_headers_wire(hs).len() as int + 1,
        }));
    } else {
        let h0 = hs[0];
        let raw0 = h0.key + seq![':'] + h0.value;
        let cb = encode_utf8(raw0);
        let m = cb.len() as int;
        // The raw line contains no newline or carriage return character.
        assert(raw0.len() == h0.key.len() + 1 + h0.value.len());
        assert forall|i: int| 0 <= i < raw0.len() implies #[trigger] raw0[i] as u32 != 10
            && raw0[i] as u32 != 13 by {
            assert('\n' as u32 == 10);
            assert('\r' as u32 == 13);
            vstd::utf8::char_u32_cast(raw0[i], raw0[i] as u32);
            vstd::utf8::char_u32_cast('\n', 10);
            vstd::utf8::char_u32_cast('\r', 13);
            if i < h0.key.len() {
                assert(raw0[i] == (h0.key + seq![':'])[i]);
                assert(raw0[i] == h0.key[i]);
                assert(h0.key[i] != '\n' && h0.key[i] != '\r');
            } else if i == h0.key.len() {
                assert(raw0[i] == (h0.key + seq![':'])[i]);
                assert(raw0[i] == ':');
            } else {
                assert(raw0[i] == h0.value[i - h0.key.len() - 1]);
                assert(h0.value[i - h0.key.len() - 1] != '\n' && h0.value[i - h0.key.len() - 1]
                    != '\r');
            }
        }
        lemma_encode_ascii_byte_absent(raw0, 10);
        lemma_encode_ascii_byte_absent(raw0, 13);
        lemma_encode_utf8_len_lower(raw0);
        // The header block's wire form begins with this line's bytes.
        let rest_wire = spec_headers_wire(hs.skip(1));
        assert(spec_headers_wire(hs) == spec_header_wire(h0) + rest_wire);
        let b2 = rest_wire + seq![10u8] + tail;
        assert(b =~= cb + seq![10u8] + b2);
        assert(b[m] == 10);
        assert forall|j: int| 0 <= j < m implies b[j] != 10 by {
            assert(b[j] == cb[j]);
        }
        assert(found_byte_at(b, 10, m));
        let i = choose|i: int| found_byte_at(b, 10, i);
        lemma_found_byte_at_unique(b, 10, i, m);
        // The line survives carriage-return stripping and is nonempty.
        assert(b.take(m) =~= cb);
        assert(cb.len() > 0);
        assert(cb.last() != 13);
        assert(spec_strip_cr(b.take(m)) == cb);
        // It is valid UTF-8 and decodes to the raw character line.
        broadcast use vstd::utf8::encode_utf8_valid_utf8;
        broadcast use vstd::utf8::encode_utf8_decode_utf8;

        assert(valid_utf8(cb));
        assert(decode_utf8(cb) == raw0);
        // Splitting the raw line at its first colon recovers the header.
        assert(raw0[h0.key.len() as int] == ':');
        assert forall|j: int| 0 <= j < h0.key.len() implies raw0[j] != ':' by {
            assert(raw0[j] == h0.key[j]);
        }
        assert(found_sep_at(raw0, ':', h0.key.len() as int));
        let ci = choose|c: int| found_sep_at(raw0, ':', c);
        lemma_found_sep_at_unique(raw0, ':', ci, h0.key.len() as int);
        assert(raw0.take(h0.key.len() as int) =~= h0.key);
        assert(raw0.skip(h0.key.len() as int + 1) =~= h0.value);
        lemma_decode_value_plain(h0.key);
        lemma_decode_value_plain(h0.value);
        assert(spec_decode_header_line(raw0) == Some(h0));
        // The remaining lines parse by induction.
        assert(hs.skip(1).len() == hs.len() - 1);
        lemma_parse_headers_wire(hs.skip(1), tail);
        assert(b.skip(m + 1) =~= b2);
        let rest = spec_parse_headers(b.skip(m + 1));
        assert(rest.status is Done && rest.headers == hs.skip(1) && rest.consumed
            == rest_wire.len() + 1);
        assert(seq![h0] + hs.skip(1) =~= hs);
        assert(spec_headers_wire(hs).len() == (m + 1) + rest_wire.len());
        assert(spec_parse_headers(b) =~= (HeadersParse {
            status: ParseStatus::Done,
            headers: hs,
            consumed: spec_headers_wire(hs).len() as int + 1,
        }));
    }
}

/// Frame round-trip: decoding the wire form of a wire-safe frame yields
/// exactly that frame and consumes exactly its bytes.
pub proof fn lemma_frame_round_trip(f: FrameView)
    requires
        wire_safe_frame(f),
    ensures
        spec_parse_transmission(spec_frame_wire(f)) == (TransmissionParse {
            status: DecodeStatus::Frame,
            frame: f,
            consumed: spec_frame_wire(f).len() as int,
        }),
{
    let name = spec_command_name(f.command);
    let cb = encode_utf8(name);
    let nc = cb.len() as int;
    lemma_command_name_plain(f.command);
    lemma_encode_ascii_byte_absent(name, 10);
    lemma_encode_ascii_byte_absent(name, 13);
    lemma_encode_utf8_len_lower(name);
    let hw = spec_headers_wire(f.headers);
    let b = spec_frame_wire(f);
    let after_cmd = hw + seq![10u8] + (f.body + seq![0u8]);
    assert(b =~= cb + seq![10u8] + after_cmd);
    // No heartbeat: the first byte is a letter of the command name.
    assert(b[0] == cb[0]);
    assert(cb[0] != 10 && cb[0] != 13);
    assert(spec_heartbeat_len(b) == 0);
    // The command line ends at the first newline.
    assert(b[nc] == 10);
    assert forall|j: int| 0 <= j < nc implies b[j] != 10 by {
        assert(b[j] == cb[j]);
    }
    assert(found_byte_at(b, 10, nc));
    let i = choose|i: int| found_byte_at(b, 10, i);
    lemma_found_byte_at_unique(b, 10, i, nc);
    assert(b.take(nc) =~= cb);
    assert(cb.last() != 13);
    assert(spec_strip_cr(b.take(nc)) == cb);
    broadcast use vstd::utf8::encode_utf8_valid_utf8;
    broadcast use vstd::utf8::encode_utf8_decode_utf8;

    assert(valid_utf8(cb));
    assert(decode_utf8(cb) == name);
    lemma_parse_command_name(f.command);
    // The header block parses back to the frame's headers.
    assert(b.skip(nc + 1) =~= after_cmd);
    lemma_parse_headers_wire(f.headers, f.body + seq![0u8]);
    let hp = spec_parse_headers(after_cmd);
    assert(hp.status is Done && hp.headers == f.headers && hp.consumed == hw.len() + 1);
    // The body and its NUL terminator follow.
    let rest = after_cmd.skip(hp.consumed);
    assert(rest =~= f.body + seq![0u8]);
    let bp = spec_parse_body(rest, f.headers);
    match spec_header_value(f.headers, "content-length"@) {
        Some(v) => {
            let n = spec_parse_u32(v)->0;
            assert(n == f.body.len());
            assert(rest.len() == n + 1);
            assert(rest[n as int] == 0);
            assert(rest.take(n as int) =~= f.body);
            assert(bp.status is Done && bp.body == f.body && bp.consumed == n + 1);
        },
        None => {
            assert(rest[f.body.len() as int] == 0);
            assert forall|j: int| 0 <= j < f.body.len() implies rest[j] != 0 by {
                assert(rest[j] == f.body[j]);
            }
            assert(found_byte_at(rest, 0, f.body.len() as int));
            let j = choose|j: int| found_byte_at(rest, 0, j);
            lemma_found_byte_at_unique(rest, 0, j, f.body.len() as int);
            assert(rest.take(f.body.len() as int) =~= f.body);
            assert(bp.status is Done && bp.body == f.body && bp.consumed == f.body.len() + 1);
        },
    }
    assert(b.len() == nc + 1 + hw.len() + 1 + f.body.len() + 1);
    assert(spec_parse_transmission(b) =~= (TransmissionParse {
        status: DecodeStatus::Frame,
        frame: f,
        consumed: b.len() as int,
    }));
}

/// The position of the first occurrence of `needle`, if any.
fn find_byte(data: &[u8], needle: u8) -> (r: Option<usize>)
    ensures
        r matches Some(i) ==> found_byte_at(data@, needle, i as int),
        r is None ==> !(exists|i: int| found_byte_at(data@, needle, i)),
{
    let len = data.len();
    let mut i: usize = 0;
    let mut found: Option<usize> = None;
    while i < len && found.is_none()
        invariant
            len == data@.len(),
            0 <= i <= len,
            found matches Some(ci) ==> (found_byte_at(data@, needle, ci as int) && i == ci),
            found is None ==> forall|j: int| 0 <= j < i ==> data@[j] != needle,
        decreases (if found is None {
            1int
        } else {
            0int
        }) + len - i,
    {
        if data[i] == needle {
            found = Some(i);
        } else {
            i = i + 1;
        }
    }
    found
}

/// The length of the leading heartbeat run.
fn heartbeat_len(data: &[u8]) -> (r: usize)
    ensures
        r == spec_heartbeat_len(data@),
        r <= data@.len(),
{
    let len = data.len();
    let mut pos: usize = 0;
    proof {
        assert(data@.skip(0) =~= data@);
    }
    while pos < len && (data[pos] == 10 || (data[pos] == 13 && pos + 1 < len && data[pos + 1]
        == 10))
        invariant
            len == data@.len(),
            0 <= pos <= len,
            spec_heartbeat_len(data@) == pos + spec_heartbeat_len(data@.skip(pos as int)),
        decreases len - pos,
    {
        let ghost tail = data@.skip(pos as int);
        proof {
            assert(tail[0] == data@[pos as int]);
            if pos as int + 1 < len {
                assert(tail[1] == data@[pos as int + 1]);
            }
            assert(tail.skip(1) =~= data@.skip(pos as int + 1));
            if pos as int + 2 <= len {
                assert(tail.skip(2) =~= data@.skip(pos as int + 2));
            }
        }
        if data[pos] == 10 {
            pos = pos + 1;
        } else {
            pos = pos + 2;
        }
    }
    proof {
        if pos == len {
            assert(data@.skip(len as int) =~= Seq::<u8>::empty());
            assert(spec_heartbeat_len(Seq::<u8>::empty()) == 0);
        } else {
            let tail = data@.skip(pos as int);
            assert(tail[0] == data@[pos as int]);
            if pos as int + 1 < len {
                assert(tail[1] == data@[pos as int + 1]);
            }
            assert(spec_heartbeat_len(tail) == 0);
        }
    }
    pos
}

enum HeadersOutcome {
    Incomplete,
    Malformed,
    Done(HeaderList, usize),
}

/// Read header lines until the empty line, mirroring `spec_parse_headers`.
fn parse_headers_bytes(data: &[u8]) -> (r: HeadersOutcome)
    ensures
        spec_parse_headers(data@).status is Incomplete <==> r is Incomplete,
        spec_parse_headers(data@).status is Malformed <==> r is Malformed,
        r matches HeadersOutcome::Done(hl, consumed) ==> {
            &&& spec_parse_headers(data@).status is Done
            &&& hl@ == spec_parse_headers(data@).headers
            &&& consumed == spec_parse_headers(data@).consumed
        },
    decreases data@.len(),
{
    let ghost p = spec_parse_headers(data@);
    let i = match find_byte(data, 10) {
        None => {
            return HeadersOutcome::Incomplete;
        },
        Some(i) => i,
    };
    proof {
        let cc = choose|c: int| found_byte_at(data@, 10, c);
        lemma_found_byte_at_unique(data@, 10, cc, i as int);
    }
    let line: &[u8] = if i > 0 && data[i - 1] == 13 {
        &data[0..i - 1]
    } else {
        &data[0..i]
    };
    proof {
        assert(data@.take(i as int).len() == i);
        if i > 0 {
            assert(data@.take(i as int).last() == data@[i as int - 1]);
        }
        if i > 0 && data@[i as int - 1] == 13 {
            assert(line@ =~= spec_strip_cr(data@.take(i as int)));
        } else {
            assert(line@ =~= data@.take(i as int));
            assert(line@ =~= spec_strip_cr(data@.take(i as int)));
        }
    }
    if line.len() == 0 {
        return HeadersOutcome::Done(HeaderList::new(), i + 1);
    }
    let line_str = match core::str::from_utf8(line) {
        Ok(s) => s,
        Err(_) => {
            return HeadersOutcome::Malformed;
        },
    };
    proof {
        broadcast use vstd::utf8::encode_utf8_decode_utf8;

        assert(decode_utf8(line@) == line_str@);
    }
    let header = match Header::decode_string(line_str) {
        None => {
            return HeadersOutcome::Malformed;
        },
        Some(h) => h,
    };
    let rest_slice: &[u8] = &data[i + 1..data.len()];
    proof {
        assert(rest_slice@ =~= data@.skip(i as int + 1));
    }
    match parse_headers_bytes(rest_slice) {
        HeadersOutcome::Incomplete => HeadersOutcome::Incomplete,
        HeadersOutcome::Malformed => HeadersOutcome::Malformed,
        HeadersOutcome::Done(mut hl, consumed) => {
            proof {
                lemma_parse_headers_consumed_bound(data@.skip(i as int + 1));
            }
            hl.headers.insert(0, header);
            proof {
                assert(hl@ =~= p.headers);
            }
            HeadersOutcome::Done(hl, i + 1 + consumed)
        },
    }
}

enum BodyOutcome {
    Incomplete,
    Malformed,
    Done(Vec<u8>, usize),
}

/// Read the frame body, mirroring `spec_parse_body`.
fn parse_body_bytes(rest: &[u8], headers: &HeaderList) -> (r: BodyOutcome)
    ensures
        spec_parse_body(rest@, headers@).status is Incomplete <==> r is Incomplete,
        spec_parse_body(rest@, headers@).status is Malformed <==> r is Malformed,
        r matches BodyOutcome::Done(body, consumed) ==> {
            &&& spec_parse_body(rest@, headers@).status is Done
            &&& body@ == spec_parse_body(rest@, headers@).body
            &&& consumed == spec_parse_body(rest@, headers@).consumed
            &&& consumed <= rest@.len()
        },
{
    proof {
        reveal_strlit("content-length");
    }
    let rest_len = rest.len();
    match headers.get_header("content-length") {
        Some(h) => {
            let n = match crate::decimal::parse_u32(h.get_value()) {
                None => {
                    return BodyOutcome::Malformed;
                },
                Some(n) => n,
            };
            if rest_len <= n as usize {
                return BodyOutcome::Incomplete;
            }
            if *slice_index_get(rest, n as usize) != 0 {
                return BodyOutcome::Malformed;
            }
            let body_slice: &[u8] = &rest[0..n as usize];
            proof {
                assert(body_slice@ =~= rest@.take(n as int));
            }
            BodyOutcome::Done(slice_to_vec(body_slice), n as usize + 1)
        },
        None => {
            match find_byte(rest, 0) {
                None => BodyOutcome::Incomplete,
                Some(j) => {
                    proof {
                        let cc = choose|c: int| found_byte_at(rest@, 0, c);
                        lemma_found_byte_at_unique(rest@, 0, cc, j as int);
                    }
                    let body_slice: &[u8] = &rest[0..j];
                    proof {
                        assert(body_slice@ =~= rest@.take(j as int));
                    }
                    BodyOutcome::Done(slice_to_vec(body_slice), j + 1)
                },
            }
        },
    }
}

/// One indexed byte of a slice.
fn slice_index_get<'a>(slice: &'a [u8], i: usize) -> (r: &'a u8)
    requires
        0 <= i < slice@.len(),
    ensures
        *r == slice@[i as int],
{
    &slice[i]
}

enum TransmissionOutcome {
    Incomplete,
    Malformed,
    HeartBeat(usize),
    Frame(Frame, usize),
}

/// Decode one transmission from the front of the bytes, mirroring
/// `spec_parse_transmission`.
fn parse_transmission_bytes(data: &[u8]) -> (r: TransmissionOutcome)
    ensures
        spec_parse_transmission(data@).status is Incomplete <==> r is Incomplete,
        spec_parse_transmission(data@).status is Malformed <==> r is Malformed,
        r matches TransmissionOutcome::HeartBeat(consumed) ==> {
            &&& spec_parse_transmission(data@).status is HeartBeat
            &&& consumed == spec_parse_transmission(data@).consumed
            &&& consumed <= data@.len()
        },
        r matches TransmissionOutcome::Frame(f, consumed) ==> {
            &&& spec_parse_transmission(data@).status is Frame
            &&& f@ == spec_parse_transmission(data@).frame
            &&& consumed == spec_parse_transmission(data@).consumed
            &&& consumed <= data@.len()
        },
{
    let hb = heartbeat_len(data);
    if hb > 0 {
        return TransmissionOutcome::HeartBeat(hb);
    }
    let i = match find_byte(data, 10) {
        None => {
            return TransmissionOutcome::Incomplete;
        },
        Some(i) => i,
    };
    proof {
        let cc = choose|c: int| found_byte_at(data@, 10, c);
        lemma_found_byte_at_unique(data@, 10, cc, i as int);
    }
    let line: &[u8] = if i > 0 && data[i - 1] == 13 {
        &data[0..i - 1]
    } else {
        &data[0..i]
    };
    proof {
        assert(data@.take(i as int).len() == i);
        if i > 0 {
            assert(data@.take(i as int).last() == data@[i as int - 1]);
        }
        if i > 0 && data@[i as int - 1] == 13 {
            assert(line@ =~= spec_strip_cr(data@.take(i as int)));
        } else {
            assert(line@ =~= data@.take(i as int));
            assert(line@ =~= spec_strip_cr(data@.take(i as int)));
        }
    }
    let line_str = match core::str::from_utf8(line) {
        Ok(s) => s,
        Err(_) => {
            return TransmissionOutcome::Malformed;
        },
    };
    proof {
        broadcast use vstd::utf8::encode_utf8_decode_utf8;

        assert(decode_utf8(line@) == line_str@);
    }
    let command = match Command::from_name(line_str) {
        None => {
            return TransmissionOutcome::Malformed;
        },
        Some(c) => c,
    };
    let after_command: &[u8] = &data[i + 1..data.len()];
    proof {
        assert(after_command@ =~= data@.skip(i as int + 1));
    }
    let (headers, headers_consumed) = match parse_headers_bytes(after_command) {
        HeadersOutcome::Incomplete => {
            return TransmissionOutcome::Incomplete;
        },
        HeadersOutcome::Malformed => {
            return TransmissionOutcome::Malformed;
        },
        HeadersOutcome::Done(hl, consumed) => (hl, consumed),
    };
    proof {
        lemma_parse_headers_consumed_bound(data@.skip(i as int + 1));
    }
    let after_headers: &[u8] = &data[i + 1 + headers_consumed..data.len()];
    proof {
        assert(after_headers@ =~= data@.skip(i as int + 1).skip(headers_consumed as int));
    }
    match parse_body_bytes(after_headers, &headers) {
        BodyOutcome::Incomplete => TransmissionOutcome::Incomplete,
        BodyOutcome::Malformed => TransmissionOutcome::Malformed,
        BodyOutcome::Done(body, body_consumed) => {
            let frame = Frame { command, headers, body };
            TransmissionOutcome::Frame(frame, i + 1 + headers_consumed + body_consumed)
        },
    }
}

/// The incremental encoder and decoder that turns buffered bytes into
/// transmissions and transmissions into bytes.
pub struct Codec;

impl Codec {
    /// Append the wire form of one transmission to the outbound buffer.
    /// Encoding never fails.
    pub fn encode(&mut self, item: Transmission, buffer: &mut BytesMut) -> (r: Result<
        (),
        DecodeError,
    >)
        ensures
            r is Ok,
            bytes_mut_view(*final(buffer)) == bytes_mut_view(*old(buffer))
                + spec_transmission_wire(&item),
    {
        item.write(buffer);
        Ok(())
    }

    /// Try to decode one transmission from the front of the buffer.
    /// `Ok(None)` leaves the buffer untouched and asks for more bytes;
    /// `Ok(Some(t))` consumes exactly the bytes of `t`; `Err` reports bytes
    /// that can never become a transmission, leaving the buffer untouched.
    pub fn decode(&mut self, src: &mut BytesMut) -> (r: Result<Option<Transmission>, DecodeError>)
        ensures
            ({
                let p = spec_parse_transmission(bytes_mut_view(*old(src)));
                match p.status {
                    DecodeStatus::Incomplete => r == Ok::<Option<Transmission>, DecodeError>(None)
                        && bytes_mut_view(*final(src)) == bytes_mut_view(*old(src)),
                    DecodeStatus::Malformed => r is Err && bytes_mut_view(*final(src))
                        == bytes_mut_view(*old(src)),
                    DecodeStatus::HeartBeat => (r matches Ok(Some(t)) && t is HeartBeat)
                        && bytes_mut_view(*final(src)) == bytes_mut_view(*old(src)).skip(
                        p.consumed,
                    ),
                    DecodeStatus::Frame => (r matches Ok(Some(t)) && t matches
                        Transmission::CompleteFrame(f) && f@ == p.frame) && bytes_mut_view(
                        *final(src),
                    ) == bytes_mut_view(*old(src)).skip(p.consumed),
                }
            }),
    {
        let data = bytes_mut_to_vec(src);
        match parse_transmission_bytes(data.as_slice()) {
            TransmissionOutcome::Incomplete => Ok(None),
            TransmissionOutcome::Malformed => Err(DecodeError),
            TransmissionOutcome::HeartBeat(consumed) => {
                bytes_mut_advance(src, consumed);
                Ok(Some(Transmission::HeartBeat))
            },
            TransmissionOutcome::Frame(frame, consumed) => {
                bytes_mut_advance(src, consumed);
                Ok(Some(Transmission::CompleteFrame(frame)))
            },
        }
    }
}

} // verus!
