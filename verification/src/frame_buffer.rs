use std::collections::VecDeque;
use std::ops::Index;

use vstd::prelude::*;
use vstd::string::StringSliceAdditionalSpecFns;
use vstd::string::StrSliceExecFns;
use vstd::utf8::decode_utf8;
use vstd::utf8::valid_utf8;

use crate::codec::{found_byte_at, spec_no_frame, DecodeError, DecodeStatus};
use crate::decimal::spec_parse_u32;
use crate::frame::{spec_parse_command, Command, Frame, FrameView, Transmission};
use crate::header::{spec_decode_header_line, spec_header_value, Header, HeaderList, HeaderView};

verus! {

/// Where the incremental parser stands within the current frame.
#[derive(Clone, Copy, PartialEq, Eq, Structural, Debug)]
pub enum FrameSection {
    Command,
    Headers,
    Body,
}

/// What the incremental parser has gathered of the current frame so far.
struct ParseState {
    command: Option<Command>,
    headers: HeaderList,
    body: Option<Vec<u8>>,
    section: FrameSection,
}

impl ParseState {
    fn new() -> (r: ParseState)
        ensures
            r.section is Command,
            r.command is None,
            r.headers@.len() == 0,
            r.body is None,
    {
        ParseState {
            command: None,
            headers: HeaderList::new(),
            body: None,
            section: FrameSection::Command,
        }
    }
}

enum ReadCommandResult {
    HeartBeat,
    Command(Command),
    Incomplete,
    Malformed,
}

enum ReadHeaderResult {
    Header(Header),
    EndOfHeaders,
    Incomplete,
    Malformed,
}

enum ReadBodyResult {
    Body(Vec<u8>),
    Incomplete,
}

/// A line with every trailing carriage return and newline removed.
pub open spec fn spec_chomp(s: Seq<char>) -> Seq<char>
    decreases s.len(),
{
    if s.len() > 0 && (s.last() == '\r' || s.last() == '\n') {
        spec_chomp(s.drop_last())
    } else {
        s
    }
}

fn is_line_end_char(c: char) -> (r: bool)
    ensures
        r == (c == '\r' || c == '\n'),
{
    c == '\r' || c == '\n'
}

/// The partial parse the buffer keeps between calls: the section it stands
/// in, and the command and headers gathered for the frame under way.
#[verifier::ext_equal]
pub ghost struct ParseProgress {
    pub section: FrameSection,
    pub command: Option<Command>,
    pub headers: Seq<HeaderView>,
}

/// Where a fresh parser stands: at a command line, with nothing gathered.
pub open spec fn initial_progress() -> ParseProgress {
    ParseProgress {
        section: FrameSection::Command,
        command: None,
        headers: Seq::<HeaderView>::empty(),
    }
}

/// What one resumed parse amounts to: the outcome reached, the bytes
/// consumed on the way (consumed even when the outcome is malformed), the
/// frame completed when one is, and the partial parse left behind.
#[verifier::ext_equal]
pub ghost struct ResumeParse {
    pub status: DecodeStatus,
    pub frame: FrameView,
    pub consumed: int,
    pub progress: ParseProgress,
}

/// Resume the incremental parse with progress `p` on buffered bytes `b`.
/// Lines are read one at a time up to each newline and stripped of trailing
/// line endings; in the command section an empty line is one heartbeat and a
/// nonempty line must name a command; header lines run until the empty line;
/// the body is read by the gathered `content-length` header when it parses,
/// and up to the first NUL octet otherwise.
pub open spec fn spec_resume(p: ParseProgress, b: Seq<u8>) -> ResumeParse
    decreases b.len(),
{
    match p.section {
        FrameSection::Command => {
            if !(exists|i: int| found_byte_at(b, 10, i)) {
                ResumeParse {
                    status: DecodeStatus::Incomplete,
                    frame: spec_no_frame(),
                    consumed: 0,
                    progress: p,
                }
            } else {
                let i = choose|i: int| found_byte_at(b, 10, i);
                let raw = b.take(i + 1);
                if !valid_utf8(raw) {
                    ResumeParse {
                        status: DecodeStatus::Malformed,
                        frame: spec_no_frame(),
                        consumed: i + 1,
                        progress: p,
                    }
                } else {
                    let line = spec_chomp(decode_utf8(raw));
                    if line.len() == 0 {
                        ResumeParse {
                            status: DecodeStatus::HeartBeat,
                            frame: spec_no_frame(),
                            consumed: i + 1,
                            progress: p,
                        }
                    } else {
                        match spec_parse_command(line) {
                            Some(c) => {
                                let rest = spec_resume(
                                    ParseProgress {
                                        section: FrameSection::Headers,
                                        command: Some(c),
                                        headers: p.headers,
                                    },
                                    b.skip(i + 1),
                                );
                                ResumeParse { consumed: i + 1 + rest.consumed, ..rest }
                            },
                            None => ResumeParse {
                                status: DecodeStatus::Malformed,
                                frame: spec_no_frame(),
                                consumed: i + 1,
                                progress: p,
                            },
                        }
                    }
                }
            }
        },
        FrameSection::Headers => {
            if !(exists|i: int| found_byte_at(b, 10, i)) {
                ResumeParse {
                    status: DecodeStatus::Incomplete,
                    frame: spec_no_frame(),
                    consumed: 0,
                    progress: p,
                }
            } else {
                let i = choose|i: int| found_byte_at(b, 10, i);
                let raw = b.take(i + 1);
                if !valid_utf8(raw) {
                    ResumeParse {
                        status: DecodeStatus::Malformed,
                        frame: spec_no_frame(),
                        consumed: i + 1,
                        progress: p,
                    }
                } else {
                    let line = spec_chomp(decode_utf8(raw));
                    if line.len() == 0 {
                        let rest = spec_resume(
                            ParseProgress { section: FrameSection::Body, ..p },
                            b.skip(i + 1),
                        );
                        ResumeParse { consumed: i + 1 + rest.consumed, ..rest }
                    } else {
                        match spec_decode_header_line(line) {
                            Some(h) => {
                                let rest = spec_resume(
                                    ParseProgress { headers: p.headers.push(h), ..p },
                                    b.skip(i + 1),
                                );
                                ResumeParse { consumed: i + 1 + rest.consumed, ..rest }
                            },
                            None => ResumeParse {
                                status: DecodeStatus::Malformed,
                                frame: spec_no_frame(),
                                consumed: i + 1,
                                progress: p,
                            },
                        }
                    }
                }
            }
        },
        FrameSection::Body => {
            let declared = match spec_header_value(p.headers, "content-length"@) {
                Some(v) => spec_parse_u32(v),
                None => None,
            };
            match declared {
                Some(n) => {
                    if b.len() <= n {
                        ResumeParse {
                            status: DecodeStatus::Incomplete,
                            frame: spec_no_frame(),
                            consumed: 0,
                            progress: p,
                        }
                    } else {
                        ResumeParse {
                            status: DecodeStatus::Frame,
                            frame: FrameView {
                                command: p.command->0,
                                headers: p.headers,
                                body: b.take(n as int),
                            },
                            consumed: n + 1,
                            progress: initial_progress(),
                        }
                    }
                },
                None => {
                    if !(exists|j: int| found_byte_at(b, 0, j)) {
                        ResumeParse {
                            status: DecodeStatus::Incomplete,
                            frame: spec_no_frame(),
                            consumed: 0,
                            progress: p,
                        }
                    } else {
                        let j = choose|j: int| found_byte_at(b, 0, j);
                        ResumeParse {
                            status: DecodeStatus::Frame,
                            frame: FrameView {
                                command: p.command->0,
                                headers: p.headers,
                                body: b.take(j),
                            },
                            consumed: j + 1,
                            progress: initial_progress(),
                        }
                    }
                },
            }
        },
    }
}

/// A resumed parse consumes at most the buffered bytes.
pub proof fn lemma_resume_consumed_bound(p: ParseProgress, b: Seq<u8>)
    ensures
        0 <= spec_resume(p, b).consumed <= b.len(),
    decreases b.len(),
{
    match p.section {
        FrameSection::Command => {
            if exists|i: int| found_byte_at(b, 10, i) {
                let i = choose|i: int| found_byte_at(b, 10, i);
                if valid_utf8(b.take(i + 1)) {
                    let line = spec_chomp(decode_utf8(b.take(i + 1)));
                    if line.len() != 0 && spec_parse_command(line) is Some {
                        lemma_resume_consumed_bound(
                            ParseProgress {
                                section: FrameSection::Headers,
                                command: Some(spec_parse_command(line)->0),
                                headers: p.headers,
                            },
                            b.skip(i + 1),
                        );
                    }
                }
            }
        },
        FrameSection::Headers => {
            if exists|i: int| found_byte_at(b, 10, i) {
                let i = choose|i: int| found_byte_at(b, 10, i);
                if valid_utf8(b.take(i + 1)) {
                    let line = spec_chomp(decode_utf8(b.take(i + 1)));
                    if line.len() == 0 {
                        lemma_resume_consumed_bound(
                            ParseProgress { section: FrameSection::Body, ..p },
                            b.skip(i + 1),
                        );
                    } else if spec_decode_header_line(line) is Some {
                        lemma_resume_consumed_bound(
                            ParseProgress {
                                headers: p.headers.push(spec_decode_header_line(line)->0),
                                ..p
                            },
                            b.skip(i + 1),
                        );
                    }
                }
            }
        },
        FrameSection::Body => {},
    }
}

/// The exact outcome of resuming the parse with progress `p` on bytes `b`:
/// the result classifies the parse, exactly the consumed prefix of the
/// bytes is gone, and the partial parse stands where the spec leaves it.
pub open spec fn resume_post(
    p: ParseProgress,
    b: Seq<u8>,
    post: &FrameBuffer,
    r: Result<Option<Transmission>, DecodeError>,
) -> bool {
    let rp = spec_resume(p, b);
    &&& post.bytes() == b.skip(rp.consumed)
    &&& post.progress() == rp.progress
    &&& match rp.status {
        DecodeStatus::Incomplete => r == Ok::<Option<Transmission>, DecodeError>(None),
        DecodeStatus::Malformed => r == Err::<Option<Transmission>, DecodeError>(DecodeError),
        DecodeStatus::HeartBeat => (r matches Ok(Some(t)) && t is HeartBeat),
        DecodeStatus::Frame => (r matches Ok(Some(t)) && t matches Transmission::CompleteFrame(f)
            && f@ == rp.frame),
    }
}

/// An incremental parser that accumulates received bytes and yields one
/// transmission at a time, keeping partial progress between calls.
pub struct FrameBuffer {
    buffer: VecDeque<u8>,
    parse_state: ParseState,
}

impl FrameBuffer {
    /// The parser never reaches the header or body section without having
    /// read a command.
    pub closed spec fn wf(&self) -> bool {
        !(self.parse_state.section is Command) ==> self.parse_state.command is Some
    }

    /// The bytes received and not yet consumed by parsing.
    pub closed spec fn bytes(&self) -> Seq<u8> {
        self.buffer@
    }

    /// The partial parse kept between calls.
    pub closed spec fn progress(&self) -> ParseProgress {
        ParseProgress {
            section: self.parse_state.section,
            command: self.parse_state.command,
            headers: self.parse_state.headers@,
        }
    }

    pub fn new() -> (r: FrameBuffer)
        ensures
            r.wf(),
            r.bytes().len() == 0,
            r.progress() == initial_progress(),
    {
        let r = FrameBuffer {
            buffer: VecDeque::with_capacity(1024 * 65),
            parse_state: ParseState::new(),
        };
        proof {
            assert(r.progress().headers =~= initial_progress().headers);
            assert(r.progress() =~= initial_progress());
        }
        r
    }

    /// How many bytes are buffered and not yet consumed.
    pub fn len(&self) -> (r: usize)
        ensures
            r == self.bytes().len(),
    {
        self.buffer.len()
    }

    /// Add received bytes at the end of the buffer.
    pub fn append(&mut self, bytes: &[u8])
        requires
            old(self).wf(),
        ensures
            final(self).wf(),
            final(self).bytes() == old(self).bytes() + bytes@,
            final(self).progress() == old(self).progress(),
    {
        let mut i: usize = 0;
        while i < bytes.len()
            invariant
                0 <= i <= bytes@.len(),
                self.buffer@ == old(self).buffer@ + bytes@.take(i as int),
                self.parse_state == old(self).parse_state,
            decreases bytes@.len() - i,
        {
            self.buffer.push_back(bytes[i]);
            proof {
                assert(self.buffer@ =~= old(self).buffer@ + bytes@.take(i as int + 1));
            }
            i = i + 1;
        }
        proof {
            assert(bytes@.take(bytes@.len() as int) =~= bytes@);
        }
    }

    /// Take the first `n` buffered bytes out.
    fn read_into_vec(&mut self, n: usize) -> (r: Vec<u8>)
        requires
            n <= old(self).buffer@.len(),
        ensures
            r@ == old(self).buffer@.take(n as int),
            final(self).buffer@ == old(self).buffer@.skip(n as int),
            final(self).parse_state == old(self).parse_state,
    {
        let mut vec: Vec<u8> = Vec::with_capacity(n);
        let mut i: usize = 0;
        while i < n
            invariant
                0 <= i <= n <= old(self).buffer@.len(),
                vec@ == old(self).buffer@.take(i as int),
                self.buffer@ == old(self).buffer@.skip(i as int),
                self.parse_state == old(self).parse_state,
            decreases n - i,
        {
            let byte = match self.buffer.pop_front() {
                Some(byte) => byte,
                None => {
                    proof {
                        assert(false);
                    }
                    0
                },
            };
            vec.push(byte);
            proof {
                assert(vec@ =~= old(self).buffer@.take(i as int + 1));
                assert(self.buffer@ =~= old(self).buffer@.skip(i as int + 1));
            }
            i = i + 1;
        }
        vec
    }

    /// Take the first `n` buffered bytes out as text; `None` when they are
    /// not valid UTF-8 (the bytes are consumed either way).
    fn read_into_string(&mut self, n: usize) -> (r: Option<String>)
        requires
            n <= old(self).buffer@.len(),
        ensures
            final(self).buffer@ == old(self).buffer@.skip(n as int),
            final(self).parse_state == old(self).parse_state,
            r is Some <==> valid_utf8(old(self).buffer@.take(n as int)),
            r matches Some(s) ==> s@ == decode_utf8(old(self).buffer@.take(n as int)),
    {
        let vec = self.read_into_vec(n);
        match core::str::from_utf8(vec.as_slice()) {
            Ok(s) => {
                proof {
                    broadcast use vstd::utf8::encode_utf8_decode_utf8;

                    assert(decode_utf8(vec@) == s@);
                }
                Some(String::from_str(s))
            },
            Err(_) => None,
        }
    }

    /// Drop the first `n` buffered bytes, or everything when fewer remain.
    #[allow(dead_code)]
    fn discard(&mut self, n: usize)
        ensures
            final(self).buffer@ == (if n <= old(self).buffer@.len() {
                old(self).buffer@.skip(n as int)
            } else {
                Seq::<u8>::empty()
            }),
            final(self).parse_state == old(self).parse_state,
    {
        let mut i: usize = 0;
        while i < n
            invariant
                0 <= i <= n,
                i <= old(self).buffer@.len() ==> self.buffer@ == old(self).buffer@.skip(i as int),
                i > old(self).buffer@.len() ==> self.buffer@ == Seq::<u8>::empty(),
                self.parse_state == old(self).parse_state,
            decreases n - i,
        {
            let popped = self.buffer.pop_front();
            proof {
                if i < old(self).buffer@.len() {
                    assert(self.buffer@ =~= old(self).buffer@.skip(i as int + 1));
                } else {
                    assert(self.buffer@ =~= Seq::<u8>::empty());
                }
            }
            i = i + 1;
        }
    }

    /// Strip every trailing carriage return and newline from a line.
    fn chomp(line: String) -> (r: String)
        ensures
            r@ == spec_chomp(line@),
    {
        let s = line.as_str();
        let ghost v = s@;
        let len = s.unicode_len();
        let mut end: usize = len;
        proof {
            assert(v.take(len as int) =~= v);
        }
        while end > 0 && is_line_end_char(s.get_char(end - 1))
            invariant
                len == v.len(),
                0 <= end <= len,
                v == s@,
                spec_chomp(v) == spec_chomp(v.take(end as int)),
            decreases end,
        {
            proof {
                let sub = v.take(end as int);
                assert(sub.last() == v[end as int - 1]);
                assert(sub.drop_last() =~= v.take(end as int - 1));
            }
            end = end - 1;
        }
        proof {
            let sub = v.take(end as int);
            if end > 0 {
                assert(sub.last() == v[end as int - 1]);
            }
            assert(spec_chomp(sub) == sub);
        }
        String::from_str(s.substring_char(0, end))
    }

    /// The position of the first occurrence of `needle` in the buffer.
    fn find_next(&self, needle: u8) -> (r: Option<usize>)
        ensures
            r matches Some(i) ==> found_byte_at(self.buffer@, needle, i as int),
            r is None ==> !(exists|i: int| found_byte_at(self.buffer@, needle, i)),
    {
        let len = self.buffer.len();
        let mut i: usize = 0;
        let mut found: Option<usize> = None;
        while i < len && found.is_none()
            invariant
                len == self.buffer@.len(),
                0 <= i <= len,
                found matches Some(ci) ==> (found_byte_at(self.buffer@, needle, ci as int) && i
                    == ci),
                found is None ==> forall|j: int| 0 <= j < i ==> self.buffer@[j] != needle,
            decreases (if found is None {
                1int
            } else {
                0int
            }) + len - i,
        {
            if *self.buffer.index(i) == needle {
                found = Some(i);
            } else {
                i = i + 1;
            }
        }
        found
    }

    /// Read one line as the frame's command, or recognise a lone line ending
    /// as a heartbeat.
    fn read_command(&mut self) -> (r: ReadCommandResult)
        ensures
            final(self).parse_state == old(self).parse_state,
            ({
                let buf = old(self).buffer@;
                if !(exists|i: int| found_byte_at(buf, 10, i)) {
                    r is Incomplete && final(self).buffer@ == buf
                } else {
                    let i = choose|i: int| found_byte_at(buf, 10, i);
                    let raw = buf.take(i + 1);
                    &&& final(self).buffer@ == buf.skip(i + 1)
                    &&& if !valid_utf8(raw) {
                        r is Malformed
                    } else {
                        let line = spec_chomp(decode_utf8(raw));
                        if line.len() == 0 {
                            r is HeartBeat
                        } else {
                            match spec_parse_command(line) {
                                Some(c) => r matches ReadCommandResult::Command(found)
                                    && found == c,
                                None => r is Malformed,
                            }
                        }
                    }
                }
            }),
    {
        let index = self.find_next(10);
        match index {
            Some(index) => {
                proof {
                    let ci = choose|i: int| found_byte_at(old(self).buffer@, 10, i);
                    crate::codec::lemma_found_byte_at_unique(
                        old(self).buffer@,
                        10,
                        ci,
                        index as int,
                    );
                }
                let buffer_len = self.buffer.len();
                assert(index < buffer_len);
                let num_bytes = index + 1;
                let command_string = match self.read_into_string(num_bytes) {
                    Some(s) => s,
                    None => {
                        return ReadCommandResult::Malformed;
                    },
                };
                let command_string = FrameBuffer::chomp(command_string);
                if command_string.as_str().unicode_len() == 0 {
                    return ReadCommandResult::HeartBeat;
                }
                match Command::from_name(command_string.as_str()) {
                    Some(command) => ReadCommandResult::Command(command),
                    None => ReadCommandResult::Malformed,
                }
            },
            None => ReadCommandResult::Incomplete,
        }
    }

    /// Read one header line; an empty line ends the header block.
    fn read_header(&mut self) -> (r: ReadHeaderResult)
        ensures
            final(self).parse_state == old(self).parse_state,
            ({
                let buf = old(self).buffer@;
                if !(exists|i: int| found_byte_at(buf, 10, i)) {
                    r is Incomplete && final(self).buffer@ == buf
                } else {
                    let i = choose|i: int| found_byte_at(buf, 10, i);
                    let raw = buf.take(i + 1);
                    &&& final(self).buffer@ == buf.skip(i + 1)
                    &&& if !valid_utf8(raw) {
                        r is Malformed
                    } else {
                        let line = spec_chomp(decode_utf8(raw));
                        if line.len() == 0 {
                            r is EndOfHeaders
                        } else {
                            match spec_decode_header_line(line) {
                                Some(h) => r matches ReadHeaderResult::Header(found)
                                    && found@ == h,
                                None => r is Malformed,
                            }
                        }
                    }
                }
            }),
    {
        let index = self.find_next(10);
        match index {
            Some(index) => {
                proof {
                    let ci = choose|i: int| found_byte_at(old(self).buffer@, 10, i);
                    crate::codec::lemma_found_byte_at_unique(
                        old(self).buffer@,
                        10,
                        ci,
                        index as int,
                    );
                }
                let buffer_len = self.buffer.len();
                assert(index < buffer_len);
                let num_bytes = index + 1;
                let header_string = match self.read_into_string(num_bytes) {
                    Some(s) => s,
                    None => {
                        return ReadHeaderResult::Malformed;
                    },
                };
                let header_string = FrameBuffer::chomp(header_string);
                if header_string.as_str().unicode_len() == 0 {
                    return ReadHeaderResult::EndOfHeaders;
                }
                match Header::decode_string(header_string.as_str()) {
                    Some(header) => ReadHeaderResult::Header(header),
                    None => ReadHeaderResult::Malformed,
                }
            },
            None => ReadHeaderResult::Incomplete,
        }
    }

    /// Read the body by content length when the gathered headers give one,
    /// and up to the first NUL octet otherwise.
    fn read_body(&mut self) -> (r: ReadBodyResult)
        ensures
            final(self).parse_state == old(self).parse_state,
            ({
                let buf = old(self).buffer@;
                let declared = match spec_header_value(
                    old(self).parse_state.headers@,
                    "content-length"@,
                ) {
                    Some(v) => spec_parse_u32(v),
                    None => None,
                };
                match declared {
                    Some(n) => {
                        if buf.len() <= n {
                            r is Incomplete && final(self).buffer@ == buf
                        } else {
                            r matches ReadBodyResult::Body(body) && body@ == buf.take(n as int)
                                && final(self).buffer@ == buf.skip(n as int + 1)
                        }
                    },
                    None => {
                        if !(exists|i: int| found_byte_at(buf, 0, i)) {
                            r is Incomplete && final(self).buffer@ == buf
                        } else {
                            let i = choose|i: int| found_byte_at(buf, 0, i);
                            r matches ReadBodyResult::Body(body) && body@ == buf.take(i)
                                && final(self).buffer@ == buf.skip(i + 1)
                        }
                    },
                }
            }),
    {
        let content_length: Option<usize> = match self.parse_state.headers.get_content_length() {
            Some(cl) => Some(cl.0 as usize),
            None => None,
        };
        let maybe_body: Option<Vec<u8>> = match content_length {
            Some(num_bytes) => self.read_body_by_content_length(num_bytes),
            None => self.read_body_by_null_octet(),
        };
        match maybe_body {
            Some(body) => ReadBodyResult::Body(body),
            None => ReadBodyResult::Incomplete,
        }
    }

    /// Read a body of exactly `content_length` bytes and drop the NUL octet
    /// after it; `None` until enough bytes have arrived.
    fn read_body_by_content_length(&mut self, content_length: usize) -> (r: Option<Vec<u8>>)
        ensures
            final(self).parse_state == old(self).parse_state,
            r is None ==> final(self).buffer@ == old(self).buffer@ && old(self).buffer@.len()
                <= content_length,
            r matches Some(body) ==> {
                &&& body@ == old(self).buffer@.take(content_length as int)
                &&& final(self).buffer@ == old(self).buffer@.skip(content_length as int + 1)
                &&& old(self).buffer@.len() >= content_length + 1
            },
    {
        if self.buffer.len() <= content_length {
            return None;
        }
        let bytes_needed = content_length + 1;
        let mut body = self.read_into_vec(bytes_needed);
        body.pop();
        proof {
            assert(body@ =~= old(self).buffer@.take(content_length as int));
        }
        Some(body)
    }

    /// Read a body that runs up to the first NUL octet, dropping the octet;
    /// `None` until one arrives.
    fn read_body_by_null_octet(&mut self) -> (r: Option<Vec<u8>>)
        ensures
            final(self).parse_state == old(self).parse_state,
            ({
                let buf = old(self).buffer@;
                if !(exists|i: int| found_byte_at(buf, 0, i)) {
                    r is None && final(self).buffer@ == buf
                } else {
                    let i = choose|i: int| found_byte_at(buf, 0, i);
                    r matches Some(body) && body@ == buf.take(i) && final(self).buffer@
                        == buf.skip(i + 1)
                }
            }),
    {
        let index = self.find_next(0);
        match index {
            Some(index) => {
                proof {
                    let ci = choose|i: int| found_byte_at(old(self).buffer@, 0, i);
                    crate::codec::lemma_found_byte_at_unique(
                        old(self).buffer@,
                        0,
                        ci,
                        index as int,
                    );
                }
                let buffer_len = self.buffer.len();
                assert(index < buffer_len);
                let num_bytes = index + 1;
                let mut body = self.read_into_vec(num_bytes);
                body.pop();
                proof {
                    assert(body@ =~= old(self).buffer@.take(index as int));
                }
                Some(body)
            },
            None => None,
        }
    }

    /// The body as text for display, with a placeholder when it is not
    /// valid UTF-8.
    pub fn body_as_string(body: &Vec<u8>) -> (r: &str)
        ensures
            valid_utf8(body@) ==> r@ == decode_utf8(body@),
            !valid_utf8(body@) ==> r@ == "<Non-utf8 Binary Content>"@,
    {
        match core::str::from_utf8(body.as_slice()) {
            Ok(s) => {
                proof {
                    broadcast use vstd::utf8::encode_utf8_decode_utf8;

                    assert(decode_utf8(body@) == s@);
                }
                s
            },
            Err(_) => "<Non-utf8 Binary Content>",
        }
    }

    /// Forget any partial frame and start over at a command line.
    fn reset_parse_state(&mut self)
        ensures
            final(self).wf(),
            final(self).buffer@ == old(self).buffer@,
            final(self).progress() == initial_progress(),
    {
        self.parse_state.command = None;
        self.parse_state.headers = HeaderList::new();
        self.parse_state.body = None;
        self.parse_state.section = FrameSection::Command;
        proof {
            assert(self.progress().headers =~= initial_progress().headers);
            assert(self.progress() =~= initial_progress());
        }
    }

    fn resume_parsing_at_command(&mut self) -> (r: Result<Option<Transmission>, DecodeError>)
        requires
            old(self).parse_state.section is Command,
        ensures
            final(self).wf(),
            resume_post(old(self).progress(), old(self).bytes(), final(self), r),
        decreases old(self).buffer@.len(),
    {
        proof {
            assert(self.buffer@.skip(0) =~= self.buffer@);
        }
        let ghost b0 = old(self).buffer@;
        let ghost p0 = old(self).progress();
        match self.read_command() {
            ReadCommandResult::HeartBeat => {
                Ok(Some(Transmission::HeartBeat))
            },
            ReadCommandResult::Command(command) => {
                let ghost mid = self.buffer@;
                self.parse_state.command = Some(command);
                self.parse_state.section = FrameSection::Headers;
                let ghost p1 = ParseProgress {
                    section: FrameSection::Headers,
                    command: Some(command),
                    headers: p0.headers,
                };
                proof {
                    assert(self.progress() =~= p1);
                }
                let r = self.resume_parsing_at_headers();
                proof {
                    let i = choose|i: int| found_byte_at(b0, 10, i);
                    assert(mid == b0.skip(i + 1));
                    let rest = spec_resume(p1, mid);
                    lemma_resume_consumed_bound(p1, mid);
                    assert(self.buffer@ =~= b0.skip(i + 1 + rest.consumed));
                    assert(spec_resume(p0, b0) == (ResumeParse {
                        consumed: i + 1 + rest.consumed,
                        ..rest
                    }));
                }
                r
            },
            ReadCommandResult::Incomplete => Ok(None),
            ReadCommandResult::Malformed => {
                Err(DecodeError)
            },
        }
    }

    fn resume_parsing_at_headers(&mut self) -> (r: Result<Option<Transmission>, DecodeError>)
        requires
            old(self).parse_state.command is Some,
            old(self).parse_state.section is Headers,
        ensures
            final(self).wf(),
            resume_post(old(self).progress(), old(self).bytes(), final(self), r),
        decreases old(self).buffer@.len(),
    {
        proof {
            assert(self.buffer@.skip(0) =~= self.buffer@);
        }
        let ghost b0 = old(self).buffer@;
        let ghost p0 = old(self).progress();
        match self.read_header() {
            ReadHeaderResult::Header(header) => {
                let ghost mid = self.buffer@;
                self.parse_state.headers.push(header);
                let ghost p1 = ParseProgress { headers: p0.headers.push(header@), ..p0 };
                proof {
                    assert(self.progress() =~= p1);
                }
                let r = self.resume_parsing_at_headers();
                proof {
                    let i = choose|i: int| found_byte_at(b0, 10, i);
                    assert(mid == b0.skip(i + 1));
                    let rest = spec_resume(p1, mid);
                    lemma_resume_consumed_bound(p1, mid);
                    assert(self.buffer@ =~= b0.skip(i + 1 + rest.consumed));
                    assert(spec_resume(p0, b0) == (ResumeParse {
                        consumed: i + 1 + rest.consumed,
                        ..rest
                    }));
                }
                r
            },
            ReadHeaderResult::EndOfHeaders => {
                let ghost mid = self.buffer@;
                self.parse_state.section = FrameSection::Body;
                let ghost p1 = ParseProgress { section: FrameSection::Body, ..p0 };
                proof {
                    assert(self.progress() =~= p1);
                }
                let r = self.resume_parsing_at_body();
                proof {
                    let i = choose|i: int| found_byte_at(b0, 10, i);
                    assert(mid == b0.skip(i + 1));
                    let rest = spec_resume(p1, mid);
                    lemma_resume_consumed_bound(p1, mid);
                    assert(self.buffer@ =~= b0.skip(i + 1 + rest.consumed));
                    assert(spec_resume(p0, b0) == (ResumeParse {
                        consumed: i + 1 + rest.consumed,
                        ..rest
                    }));
                }
                r
            },
            ReadHeaderResult::Incomplete => Ok(None),
            ReadHeaderResult::Malformed => {
                Err(DecodeError)
            },
        }
    }

    fn resume_parsing_at_body(&mut self) -> (r: Result<Option<Transmission>, DecodeError>)
        requires
            old(self).parse_state.command is Some,
            old(self).parse_state.section is Body,
        ensures
            final(self).wf(),
            resume_post(old(self).progress(), old(self).bytes(), final(self), r),
    {
        proof {
            assert(self.buffer@.skip(0) =~= self.buffer@);
        }
        let ghost b0 = old(self).buffer@;
        let ghost p0 = old(self).progress();
        match self.read_body() {
            ReadBodyResult::Body(body_bytes) => {
                let command = match &self.parse_state.command {
                    Some(command) => *command,
                    None => {
                        proof {
                            assert(false);
                        }
                        Command::Error
                    },
                };
                let headers = self.parse_state.headers.clone();
                let frame = Frame { command, headers, body: body_bytes };
                self.reset_parse_state();
                proof {
                    assert(self.progress() =~= initial_progress());
                    assert(frame@ =~= spec_resume(p0, b0).frame);
                }
                Ok(Some(Transmission::CompleteFrame(frame)))
            },
            ReadBodyResult::Incomplete => Ok(None),
        }
    }

    /// Try to parse one transmission from the buffered bytes, resuming where
    /// the last call stopped: the result classifies `spec_resume` of the
    /// kept progress on the buffered bytes, exactly the bytes that parse
    /// consumed are gone, and the partial parse stands where it says.
    /// `Ok(None)` waits for more bytes; `Err` reports bytes that cannot be
    /// part of a transmission.
    pub fn read_transmission(&mut self) -> (r: Result<Option<Transmission>, DecodeError>)
        requires
            old(self).wf(),
        ensures
            final(self).wf(),
            resume_post(old(self).progress(), old(self).bytes(), final(self), r),
    {
        match self.parse_state.section {
            FrameSection::Command => self.resume_parsing_at_command(),
            FrameSection::Headers => self.resume_parsing_at_headers(),
            FrameSection::Body => self.resume_parsing_at_body(),
        }
    }
}

} // verus!
