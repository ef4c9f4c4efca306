use vstd::prelude::*;

use crate::decimal::{parse_u32, spec_parse_u32};

verus! {

/// The mathematical content of one header: its key and value as character
/// sequences, in the form in which they are stored in memory.
#[verifier::ext_equal]
pub ghost struct HeaderView {
    pub key: Seq<char>,
    pub value: Seq<char>,
}

/// One STOMP header: a key and a value.
#[derive(Debug)]
pub struct Header(pub String, pub String);

impl View for Header {
    type V = HeaderView;

    open spec fn view(&self) -> HeaderView {
        HeaderView { key: self.0@, value: self.1@ }
    }
}

impl Clone for Header {
    fn clone(&self) -> (r: Self)
        ensures
            r@ == self@,
    {
        Header(self.0.clone(), self.1.clone())
    }
}

/// The escaped form of one character in a header key or value: `\`, CR, LF
/// and `:` become two-character escape sequences, everything else stands for
/// itself.
pub open spec fn spec_escape_char(c: char) -> Seq<char> {
    if c == '\\' {
        seq!['\\', '\\']
    } else if c == '\r' {
        seq!['\\', 'r']
    } else if c == '\n' {
        seq!['\\', 'n']
    } else if c == ':' {
        seq!['\\', 'c']
    } else {
        seq![c]
    }
}

/// The escaped form of a whole key or value.
pub open spec fn spec_encode_value(s: Seq<char>) -> Seq<char>
    decreases s.len(),
{
    if s.len() == 0 {
        Seq::<char>::empty()
    } else {
        spec_escape_char(s[0]) + spec_encode_value(s.skip(1))
    }
}

/// The character denoted by the letter following a backslash; `None` marks an
/// invalid escape.
pub open spec fn spec_unescape_char(c: char) -> Option<char> {
    if c == 'c' {
        Some(':')
    } else if c == 'r' {
        Some('\r')
    } else if c == 'n' {
        Some('\n')
    } else if c == '\\' {
        Some('\\')
    } else {
        None
    }
}

/// Undo `spec_encode_value`: `None` when a backslash is followed by anything
/// but `c`, `r`, `n` or `\`, or ends the string.
pub open spec fn spec_decode_value(s: Seq<char>) -> Option<Seq<char>>
    decreases s.len(),
{
    if s.len() == 0 {
        Some(Seq::<char>::empty())
    } else if s[0] == '\\' {
        if s.len() < 2 {
            None
        } else {
            match spec_unescape_char(s[1]) {
                None => None,
                Some(c) => match spec_decode_value(s.skip(2)) {
                    None => None,
                    Some(rest) => Some(seq![c] + rest),
                },
            }
        }
    } else {
        match spec_decode_value(s.skip(1)) {
            None => None,
            Some(rest) => Some(seq![s[0]] + rest),
        }
    }
}

/// Escaping always decodes back to the original string.
pub proof fn lemma_decode_encode_value(s: Seq<char>)
    ensures
        spec_decode_value(spec_encode_value(s)) == Some(s),
    decreases s.len(),
{
    if s.len() == 0 {
        assert(spec_encode_value(s).len() == 0);
    } else {
        lemma_decode_encode_value(s.skip(1));
        let e = spec_encode_value(s);
        let c = s[0];
        if c == '\\' || c == '\r' || c == '\n' || c == ':' {
            assert(e.len() >= 2);
            assert(e[0] == '\\');
            assert(e[1] == spec_escape_char(c)[1]);
            assert(e.skip(2) =~= spec_encode_value(s.skip(1)));
            assert(spec_unescape_char(e[1]) == Some(c));
            assert(seq![c] + s.skip(1) =~= s);
        } else {
            assert(e[0] == c);
            assert(e.skip(1) =~= spec_encode_value(s.skip(1)));
            assert(seq![c] + s.skip(1) =~= s);
        }
    }
}

/// Unescaping a string that contains no backslash gives it back unchanged.
pub proof fn lemma_decode_value_plain(s: Seq<char>)
    requires
        forall|i: int| 0 <= i < s.len() ==> s[i] != '\\',
    ensures
        spec_decode_value(s) == Some(s),
    decreases s.len(),
{
    if s.len() == 0 {
        assert(spec_decode_value(s) == Some(Seq::<char>::empty()));
        assert(s =~= Seq::<char>::empty());
    } else {
        lemma_decode_value_plain(s.skip(1));
        assert(s[0] != '\\');
        assert(seq![s[0]] + s.skip(1) =~= s);
    }
}

impl Header {
    /// Build a header, escaping both the key and the value.
    pub fn new(key: &str, value: &str) -> (r: Header)
        ensures
            r@.key == spec_encode_value(key@),
            r@.value == spec_encode_value(value@),
    {
        Header(Header::encode_value(key), Header::encode_value(value))
    }

    /// Build a header from strings that are already in wire form; nothing is
    /// escaped.
    pub fn new_raw(key: String, value: String) -> (r: Header)
        ensures
            r@.key == key@,
            r@.value == value@,
    {
        Header(key, value)
    }

    /// The `key:value` line as it appears on the wire, without the newline.
    pub fn get_raw(&self) -> (r: String)
        ensures
            r@ == self@.key + seq![':'] + self@.value,
    {
        proof {
            reveal_strlit(":");
        }
        let r = self.0.clone().concat(":").concat(self.1.as_str());
        proof {
            assert(r@ =~= self@.key + seq![':'] + self@.value);
        }
        r
    }

    /// Apply the STOMP header escape to every character of `value`.
    pub fn encode_value(value: &str) -> (r: String)
        ensures
            r@ == spec_encode_value(value@),
    {
        proof {
            reveal_strlit("\\\\");
            reveal_strlit("\\r");
            reveal_strlit("\\n");
            reveal_strlit("\\c");
        }
        let ghost v = value@;
        let len = value.unicode_len();
        let mut encoded = String::new();
        let mut i: usize = 0;
        proof {
            assert(v.skip(0) =~= v);
            assert(spec_encode_value(v) =~= encoded@ + spec_encode_value(v));
        }
        while i < len
            invariant
                len == v.len(),
                0 <= i <= len,
                v == value@,
                spec_encode_value(v) == encoded@ + spec_encode_value(v.skip(i as int)),
            decreases len - i,
        {
            proof {
                reveal_strlit("\\\\");
                reveal_strlit("\\r");
                reveal_strlit("\\n");
                reveal_strlit("\\c");
                assert(v.skip(i as int)[0] == v[i as int]);
                assert(v.skip(i as int).skip(1) =~= v.skip(i as int + 1));
            }
            let c = value.get_char(i);
            if c == '\\' {
                encoded.append("\\\\");
            } else if c == '\r' {
                encoded.append("\\r");
            } else if c == '\n' {
                encoded.append("\\n");
            } else if c == ':' {
                encoded.append("\\c");
            } else {
                let piece = value.substring_char(i, i + 1);
                proof {
                    assert(piece@ =~= seq![v[i as int]]);
                }
                encoded.append(piece);
            }
            proof {
                assert(spec_encode_value(v) =~= encoded@ + spec_encode_value(
                    v.skip(i as int + 1),
                ));
            }
            i = i + 1;
        }
        proof {
            assert(v.skip(len as int) =~= Seq::<char>::empty());
            assert(spec_encode_value(v) =~= encoded@);
        }
        encoded
    }

    /// Undo the STOMP header escape; `None` on an invalid escape sequence.
    pub fn decode_value(value: &str) -> (r: Option<String>)
        ensures
            r is Some <==> spec_decode_value(value@) is Some,
            r matches Some(d) ==> spec_decode_value(value@) == Some(d@),
    {
        proof {
            reveal_strlit(":");
            reveal_strlit("\r");
            reveal_strlit("\n");
            reveal_strlit("\\");
        }
        let ghost v = value@;
        let len = value.unicode_len();
        let mut decoded = String::new();
        let mut i: usize = 0;
        proof {
            assert(v.skip(0) =~= v);
            if spec_decode_value(v) is Some {
                assert(spec_decode_value(v)->0 =~= decoded@ + spec_decode_value(v)->0);
            }
        }
        while i < len
            invariant
                len == v.len(),
                0 <= i <= len,
                v == value@,
                spec_decode_value(v) is Some <==> spec_decode_value(v.skip(i as int)) is Some,
                spec_decode_value(v) matches Some(w) ==> spec_decode_value(v.skip(i as int))
                    matches Some(rest) && w == decoded@ + rest,
            decreases len - i,
        {
            let ghost tail = v.skip(i as int);
            proof {
                reveal_strlit(":");
                reveal_strlit("\r");
                reveal_strlit("\n");
                reveal_strlit("\\");
                assert(tail[0] == v[i as int]);
                assert(tail.skip(1) =~= v.skip(i as int + 1));
            }
            let c = value.get_char(i);
            if c == '\\' {
                if i + 1 >= len {
                    assert(spec_decode_value(tail) is None);
                    return None;
                }
                proof {
                    assert(tail[1] == v[i as int + 1]);
                    assert(tail.skip(2) =~= v.skip(i as int + 2));
                }
                let e = value.get_char(i + 1);
                if e == 'c' {
                    decoded.append(":");
                } else if e == 'r' {
                    decoded.append("\r");
                } else if e == 'n' {
                    decoded.append("\n");
                } else if e == '\\' {
                    decoded.append("\\");
                } else {
                    assert(spec_unescape_char(tail[1]) is None);
                    assert(spec_decode_value(tail) is None);
                    return None;
                }
                proof {
                    let u = spec_unescape_char(tail[1])->0;
                    if spec_decode_value(v) is Some {
                        let w = spec_decode_value(v)->0;
                        let rest = spec_decode_value(v.skip(i as int + 2))->0;
                        assert(spec_decode_value(tail) == Some(seq![u] + rest));
                        assert(decoded@ + rest =~= w);
                    }
                }
                i = i + 2;
            } else {
                let piece = value.substring_char(i, i + 1);
                proof {
                    assert(piece@ =~= seq![v[i as int]]);
                }
                decoded.append(piece);
                proof {
                    if spec_decode_value(v) is Some {
                        let w = spec_decode_value(v)->0;
                        let rest = spec_decode_value(v.skip(i as int + 1))->0;
                        assert(spec_decode_value(tail) == Some(seq![tail[0]] + rest));
                        assert(decoded@ + rest =~= w);
                    }
                }
                i = i + 1;
            }
        }
        proof {
            assert(v.skip(len as int) =~= Seq::<char>::empty());
            if spec_decode_value(v) is Some {
                assert(spec_decode_value(v)->0 =~= decoded@);
            }
        }
        Some(decoded)
    }

    /// Parse one raw `key:value` line: split at the first colon, then undo
    /// the escapes on both sides. `None` when there is no colon or an escape
    /// is invalid.
    pub fn decode_string(raw_string: &str) -> (r: Option<Header>)
        ensures
            r is Some <==> spec_decode_header_line(raw_string@) is Some,
            r matches Some(h) ==> spec_decode_header_line(raw_string@) == Some(h@),
    {
        let len = raw_string.unicode_len();
        let ghost v = raw_string@;
        match find_char(raw_string, ':') {
            None => None,
            Some(ci) => {
                let key_part = raw_string.substring_char(0, ci);
                let value_part = raw_string.substring_char(ci + 1, len);
                proof {
                    let cc = choose|c: int| found_sep_at(v, ':', c);
                    lemma_found_sep_at_unique(v, ':', cc, ci as int);
                    assert(key_part@ =~= v.take(ci as int));
                    assert(value_part@ =~= v.skip(ci as int + 1));
                }
                let key = match Header::decode_value(key_part) {
                    Some(k) => k,
                    None => {
                        return None;
                    },
                };
                let value = match Header::decode_value(value_part) {
                    Some(w) => w,
                    None => {
                        return None;
                    },
                };
                Some(Header(key, value))
            },
        }
    }

    /// Split a raw `key:value` line at its first colon, keeping both sides
    /// exactly as written; `None` when there is no colon.
    pub fn from_str(raw_string: &str) -> (r: Option<Header>)
        ensures
            r is Some <==> exists|ci: int| found_sep_at(raw_string@, ':', ci),
            r matches Some(h) ==> exists|ci: int|
                {
                    &&& #[trigger] found_sep_at(raw_string@, ':', ci)
                    &&& h@.key == raw_string@.take(ci)
                    &&& h@.value == raw_string@.skip(ci + 1)
                },
    {
        let len = raw_string.unicode_len();
        match find_char(raw_string, ':') {
            None => None,
            Some(ci) => {
                let key = raw_string.substring_char(0, ci);
                let value = raw_string.substring_char(ci + 1, len);
                proof {
                    assert(key@ =~= raw_string@.take(ci as int));
                    assert(value@ =~= raw_string@.skip(ci as int + 1));
                }
                Some(Header(String::from_str(key), String::from_str(value)))
            },
        }
    }

    /// Join a key and value that are already in wire form.
    pub fn from_key_value(key: &str, value: &str) -> (r: Header)
        ensures
            r@.key == key@,
            r@.value == value@,
    {
        Header(String::from_str(key), String::from_str(value))
    }

    /// The stored key.
    pub fn get_key<'a>(&'a self) -> (r: &'a str)
        ensures
            r@ == self@.key,
    {
        self.0.as_str()
    }

    /// The stored value.
    pub fn get_value<'a>(&'a self) -> (r: &'a str)
        ensures
            r@ == self@.value,
    {
        self.1.as_str()
    }
}

/// Character-by-character string equality.
pub fn str_eq(a: &str, b: &str) -> (r: bool)
    ensures
        r == (a@ == b@),
{
    let alen = a.unicode_len();
    let blen = b.unicode_len();
    if alen != blen {
        assert(a@ != b@);
        return false;
    }
    let mut i: usize = 0;
    while i < alen
        invariant
            alen == a@.len() == b@.len(),
            0 <= i <= alen,
            forall|j: int| 0 <= j < i ==> a@[j] == b@[j],
        decreases alen - i,
    {
        if a.get_char(i) != b.get_char(i) {
            assert(a@ != b@);
            return false;
        }
        i = i + 1;
    }
    proof {
        assert(a@ =~= b@);
    }
    true
}

/// Whether `s[i]` is the first occurrence of `sep` in `s`.
pub open spec fn found_sep_at(s: Seq<char>, sep: char, i: int) -> bool {
    &&& 0 <= i < s.len()
    &&& s[i] == sep
    &&& forall|j: int| 0 <= j < i ==> s[j] != sep
}

/// The first occurrence of a separator is a single position.
pub proof fn lemma_found_sep_at_unique(s: Seq<char>, sep: char, c1: int, c2: int)
    requires
        found_sep_at(s, sep, c1),
        found_sep_at(s, sep, c2),
    ensures
        c1 == c2,
{
}

/// The position of the first occurrence of `sep` in `s`, if any.
pub fn find_char(s: &str, sep: char) -> (r: Option<usize>)
    ensures
        r matches Some(i) ==> found_sep_at(s@, sep, i as int),
        r is None ==> !(exists|i: int| found_sep_at(s@, sep, i)),
{
    let len = s.unicode_len();
    let mut i: usize = 0;
    let mut found: Option<usize> = None;
    while i < len && found.is_none()
        invariant
            len == s@.len(),
            0 <= i <= len,
            found matches Some(ci) ==> (found_sep_at(s@, sep, ci as int) && i == ci),
            found is None ==> forall|j: int| 0 <= j < i ==> s@[j] != sep,
        decreases (if found is None {
            1int
        } else {
            0int
        }) + len - i,
    {
        if s.get_char(i) == sep {
            found = Some(i);
        } else {
            i = i + 1;
        }
    }
    found
}

/// Split a raw header line at its first colon and unescape both sides.
pub open spec fn spec_decode_header_line(s: Seq<char>) -> Option<HeaderView> {
    if exists|ci: int| found_sep_at(s, ':', ci) {
        let ci = choose|ci: int| found_sep_at(s, ':', ci);
        match (spec_decode_value(s.take(ci)), spec_decode_value(s.skip(ci + 1))) {
            (Some(k), Some(v)) => Some(HeaderView { key: k, value: v }),
            _ => None,
        }
    } else {
        None
    }
}

/// An ordered list of headers; duplicates are allowed and lookups return the
/// first match.
#[derive(Debug)]
pub struct HeaderList {
    pub headers: Vec<Header>,
}

impl View for HeaderList {
    type V = Seq<HeaderView>;

    open spec fn view(&self) -> Seq<HeaderView> {
        self.headers@.map_values(|h: Header| h@)
    }
}

impl Clone for HeaderList {
    fn clone(&self) -> (r: Self)
        ensures
            r@ == self@,
    {
        let mut headers: Vec<Header> = Vec::with_capacity(self.headers.len());
        let mut i: usize = 0;
        while i < self.headers.len()
            invariant
                0 <= i <= self.headers@.len(),
                headers@.len() == i,
                forall|j: int| 0 <= j < i ==> headers@[j]@ == self.headers@[j]@,
            decreases self.headers@.len() - i,
        {
            headers.push(self.headers[i].clone());
            i = i + 1;
        }
        let r = HeaderList { headers };
        proof {
            assert(r@ =~= self@);
        }
        r
    }
}

/// The first header with the given key, if any.
pub open spec fn spec_find_header(hs: Seq<HeaderView>, key: Seq<char>) -> Option<HeaderView>
    decreases hs.len(),
{
    if hs.len() == 0 {
        None
    } else if hs[0].key == key {
        Some(hs[0])
    } else {
        spec_find_header(hs.skip(1), key)
    }
}

/// The value of the first header with the given key, if any.
pub open spec fn spec_header_value(hs: Seq<HeaderView>, key: Seq<char>) -> Option<Seq<char>> {
    match spec_find_header(hs, key) {
        None => None,
        Some(h) => Some(h.value),
    }
}

/// Keep the elements of `s` whose mask bit is set, in order.
pub open spec fn mask_filter<T>(s: Seq<T>, keep: Seq<bool>) -> Seq<T>
    recommends
        s.len() == keep.len(),
    decreases s.len(),
{
    if s.len() == 0 {
        Seq::<T>::empty()
    } else {
        mask_filter(s.drop_last(), keep.drop_last()) + if keep.last() {
            seq![s.last()]
        } else {
            Seq::<T>::empty()
        }
    }
}

/// When the mask agrees pointwise with a predicate, masking is filtering.
pub proof fn lemma_mask_filter_is_filter<T>(s: Seq<T>, keep: Seq<bool>, p: spec_fn(T) -> bool)
    requires
        s.len() == keep.len(),
        forall|i: int| 0 <= i < s.len() ==> keep[i] == p(s[i]),
    ensures
        mask_filter(s, keep) == s.filter(p),
    decreases s.len(),
{
    reveal(Seq::filter);
    if s.len() == 0 {
        assert(mask_filter(s, keep) =~= s.filter(p));
    } else {
        lemma_mask_filter_is_filter(s.drop_last(), keep.drop_last(), p);
        assert(keep.last() == p(s.last()));
        assert(mask_filter(s, keep) =~= s.filter(p));
    }
}

impl HeaderList {
    pub fn new() -> (r: HeaderList)
        ensures
            r@.len() == 0,
    {
        HeaderList::with_capacity(0)
    }

    pub fn with_capacity(capacity: usize) -> (r: HeaderList)
        ensures
            r@.len() == 0,
    {
        let r = HeaderList { headers: Vec::with_capacity(capacity) };
        proof {
            assert(r@ =~= Seq::<HeaderView>::empty());
        }
        r
    }

    /// Append one header at the end.
    pub fn push(&mut self, header: Header)
        ensures
            final(self)@ == old(self)@ + seq![header@],
    {
        self.headers.push(header);
        proof {
            assert(final(self)@ =~= old(self)@ + seq![header@]);
        }
    }

    /// Remove and return the last header.
    pub fn pop(&mut self) -> (r: Option<Header>)
        ensures
            old(self)@.len() == 0 ==> r is None && final(self)@ == old(self)@,
            old(self)@.len() > 0 ==> (r matches Some(h) && h@ == old(self)@.last()
                && final(self)@ == old(self)@.drop_last()),
    {
        let r = self.headers.pop();
        proof {
            if old(self)@.len() > 0 {
                assert(final(self)@ =~= old(self)@.drop_last());
            } else {
                assert(final(self)@ =~= old(self)@);
            }
        }
        r
    }

    /// The headers, in insertion order.
    pub fn iter<'a>(&'a self) -> (r: &'a Vec<Header>)
        ensures
            r@.map_values(|h: Header| h@) == self@,
    {
        &self.headers
    }

    /// Hand every header, last first, to `sink`, leaving the list empty.
    pub fn drain<F: Fn(Header)>(&mut self, sink: F)
        requires
            forall|h: Header| sink.requires((h,)),
        ensures
            final(self)@.len() == 0,
    {
        while self.headers.len() > 0
            invariant
                forall|h: Header| sink.requires((h,)),
            decreases self.headers@.len(),
        {
            match self.headers.pop() {
                Some(header) => sink(header),
                None => {},
            }
        }
        proof {
            assert(final(self)@ =~= Seq::<HeaderView>::empty());
        }
    }

    /// Move every header of `other_list` to the end of this list, keeping
    /// its order; `other_list` is left empty.
    pub fn concat(&mut self, other_list: &mut HeaderList)
        ensures
            final(self)@ == old(self)@ + old(other_list)@,
            final(other_list)@.len() == 0,
    {
        self.headers.append(&mut other_list.headers);
        proof {
            assert(final(self)@ =~= old(self)@ + old(other_list)@);
            assert(final(other_list)@ =~= Seq::<HeaderView>::empty());
        }
    }

    /// Keep only the headers accepted by `test`, in order. The returned mask
    /// records, header by header, which answer `test` gave.
    pub fn retain<F: Fn(&Header) -> bool>(&mut self, test: F) -> (mask: Ghost<Seq<bool>>)
        requires
            forall|h: &Header| test.requires((h,)),
        ensures
            mask@.len() == old(self)@.len(),
            forall|i: int|
                0 <= i < mask@.len() ==> test.ensures((&old(self).headers@[i],), mask@[i]),
            final(self)@ == mask_filter(old(self)@, mask@),
    {
        let ghost orig = self.headers@;
        let mut kept: Vec<Header> = Vec::new();
        let ghost mut keep: Seq<bool> = Seq::empty();
        let mut i: usize = 0;
        while i < self.headers.len()
            invariant
                forall|h: &Header| test.requires((h,)),
                self.headers@ == orig,
                0 <= i <= orig.len(),
                keep.len() == i,
                forall|j: int| 0 <= j < i ==> test.ensures((&orig[j],), keep[j]),
                kept@.map_values(|h: Header| h@) == mask_filter(
                    orig.take(i as int).map_values(|h: Header| h@),
                    keep,
                ),
            decreases orig.len() - i,
        {
            let ghost prev_keep = keep;
            let h = &self.headers[i];
            let verdict = test(h);
            proof {
                keep = keep.push(verdict);
            }
            if verdict {
                kept.push(h.clone());
            }
            proof {
                let prev = orig.take(i as int).map_values(|h: Header| h@);
                let cur = orig.take(i as int + 1).map_values(|h: Header| h@);
                assert(cur.drop_last() =~= prev);
                assert(keep.drop_last() =~= prev_keep);
                assert(cur.last() == orig[i as int]@);
                assert(keep.last() == verdict);
                assert(kept@.map_values(|h: Header| h@) =~= mask_filter(cur, keep));
            }
            i = i + 1;
        }
        proof {
            assert(orig.take(orig.len() as int) =~= orig);
        }
        self.headers = kept;
        proof {
            assert(final(self)@ == mask_filter(old(self)@, keep));
        }
        Ghost(keep)
    }

    /// The first header whose key is `key`, if any.
    pub fn get_header<'a>(&'a self, key: &str) -> (r: Option<&'a Header>)
        ensures
            r is Some <==> spec_find_header(self@, key@) is Some,
            r matches Some(h) ==> spec_find_header(self@, key@) == Some(h@),
    {
        let mut i: usize = 0;
        proof {
            assert(self@.skip(0) =~= self@);
        }
        while i < self.headers.len()
            invariant
                0 <= i <= self.headers@.len(),
                spec_find_header(self@, key@) == spec_find_header(
                    self@.skip(i as int),
                    key@,
                ),
            decreases self.headers@.len() - i,
        {
            let ghost tail = self@.skip(i as int);
            proof {
                assert(tail[0] == self@[i as int]);
                assert(tail.skip(1) =~= self@.skip(i as int + 1));
            }
            let h = &self.headers[i];
            if str_eq(h.0.as_str(), key) {
                assert(spec_find_header(tail, key@) == Some(h@));
                return Some(h);
            }
            i = i + 1;
        }
        proof {
            assert(self@.skip(self.headers@.len() as int) =~= Seq::<HeaderView>::empty());
        }
        None
    }
}

/// A directive to remove every header with the given key.
pub struct SuppressedHeader<'a>(pub &'a str);

/// A shorthand for a `content-type` header.
pub struct ContentType<'a>(pub &'a str);

// Typed views of the headers named by the STOMP 1.2 specification.
#[derive(Clone)]
pub struct AcceptVersion(pub Vec<StompVersion>);

pub struct Ack<'a>(pub &'a str);

#[derive(Clone, Copy)]
pub struct ContentLength(pub u32);

pub struct Custom(pub Header);

pub struct Destination<'a>(pub &'a str);

#[derive(Clone, Copy)]
pub struct HeartBeat(pub u32, pub u32);

pub struct Host<'a>(pub &'a str);

pub struct Id<'a>(pub &'a str);

pub struct Login<'a>(pub &'a str);

pub struct MessageId<'a>(pub &'a str);

pub struct Passcode<'a>(pub &'a str);

pub struct Receipt<'a>(pub &'a str);

pub struct ReceiptId<'a>(pub &'a str);

pub struct Server<'a>(pub &'a str);

pub struct Session<'a>(pub &'a str);

pub struct Subscription<'a>(pub &'a str);

pub struct Transaction<'a>(pub &'a str);

#[derive(Clone, Copy)]
pub struct Version(pub StompVersion);

#[derive(Clone, Copy, PartialEq, Eq, Structural, Debug)]
pub enum StompVersion {
    Stomp_v1_0,
    Stomp_v1_1,
    Stomp_v1_2,
}

/// The version named by one segment of an `accept-version` value, after
/// stripping spaces and tabs; `None` for anything unrecognised.
pub open spec fn spec_parse_version(s: Seq<char>) -> Option<StompVersion> {
    let t = spec_trim(s);
    if t == "1.0"@ {
        Some(StompVersion::Stomp_v1_0)
    } else if t == "1.1"@ {
        Some(StompVersion::Stomp_v1_1)
    } else if t == "1.2"@ {
        Some(StompVersion::Stomp_v1_2)
    } else {
        None
    }
}

pub open spec fn is_trim_space(c: char) -> bool {
    c == ' ' || c == '\t'
}

/// Strip leading and trailing spaces and tabs.
pub open spec fn spec_trim(s: Seq<char>) -> Seq<char>
    decreases s.len(),
{
    if s.len() == 0 {
        s
    } else if is_trim_space(s[0]) {
        spec_trim(s.skip(1))
    } else if is_trim_space(s.last()) {
        spec_trim(s.drop_last())
    } else {
        s
    }
}

/// The segments of `s` between occurrences of `sep`: splitting a string with
/// no separator gives the string itself, as a single segment.
pub open spec fn spec_split(s: Seq<char>, sep: char) -> Seq<Seq<char>>
    decreases s.len(),
{
    if exists|i: int| found_sep_at(s, sep, i) {
        let i = choose|i: int| found_sep_at(s, sep, i);
        seq![s.take(i)] + spec_split(s.skip(i + 1), sep)
    } else {
        seq![s]
    }
}

/// A `heart-beat` value parses when it is two decimal numbers separated by a
/// single comma; anything else advertises no heartbeat.
pub open spec fn spec_parse_heart_beat(v: Seq<char>) -> Option<(u32, u32)> {
    if exists|i: int| found_sep_at(v, ',', i) {
        let i = choose|i: int| found_sep_at(v, ',', i);
        match (spec_parse_u32(v.take(i)), spec_parse_u32(v.skip(i + 1))) {
            (Some(x), Some(y)) => Some((x, y)),
            _ => None,
        }
    } else {
        None
    }
}

/// The recognised versions among a list of segments, in order.
pub open spec fn spec_parse_version_list(segs: Seq<Seq<char>>) -> Seq<StompVersion>
    decreases segs.len(),
{
    if segs.len() == 0 {
        Seq::<StompVersion>::empty()
    } else {
        (match spec_parse_version(segs[0]) {
            Some(x) => seq![x],
            None => Seq::<StompVersion>::empty(),
        }) + spec_parse_version_list(segs.skip(1))
    }
}

/// Whether the character is stripped by trimming.
fn is_space_char(c: char) -> (r: bool)
    ensures
        r == is_trim_space(c),
{
    c == ' ' || c == '\t'
}

/// Strip leading and trailing spaces and tabs.
pub fn trim_str<'a>(s: &'a str) -> (r: &'a str)
    ensures
        r@ == spec_trim(s@),
{
    let ghost v = s@;
    let len = s.unicode_len();
    let mut lo: usize = 0;
    let mut hi: usize = len;
    proof {
        assert(v.subrange(0, len as int) =~= v);
    }
    while lo < hi && is_space_char(s.get_char(lo))
        invariant
            len == v.len(),
            0 <= lo <= hi <= len,
            v == s@,
            hi == len,
            spec_trim(v) == spec_trim(v.subrange(lo as int, hi as int)),
        decreases hi - lo,
    {
        proof {
            let sub = v.subrange(lo as int, hi as int);
            assert(sub[0] == v[lo as int]);
            assert(sub.skip(1) =~= v.subrange(lo as int + 1, hi as int));
        }
        lo = lo + 1;
    }
    while lo < hi && is_space_char(s.get_char(hi - 1))
        invariant
            len == v.len(),
            0 <= lo <= hi <= len,
            v == s@,
            spec_trim(v) == spec_trim(v.subrange(lo as int, hi as int)),
            lo < hi ==> !is_trim_space(v[lo as int]),
        decreases hi - lo,
    {
        proof {
            let sub = v.subrange(lo as int, hi as int);
            assert(sub[0] == v[lo as int]);
            assert(sub.last() == v[hi as int - 1]);
            assert(sub.drop_last() =~= v.subrange(lo as int, hi as int - 1));
        }
        hi = hi - 1;
    }
    let r = s.substring_char(lo, hi);
    proof {
        let sub = v.subrange(lo as int, hi as int);
        if lo < hi {
            assert(sub[0] == v[lo as int]);
            assert(sub.last() == v[hi as int - 1]);
            assert(spec_trim(sub) == sub);
        } else {
            assert(sub.len() == 0);
        }
        assert(r@ =~= sub);
    }
    r
}

/// Parse one `accept-version` segment after trimming.
fn parse_version_segment(seg: &str) -> (r: Option<StompVersion>)
    ensures
        r == spec_parse_version(seg@),
{
    proof {
        reveal_strlit("1.0");
        reveal_strlit("1.1");
        reveal_strlit("1.2");
    }
    let t = trim_str(seg);
    if str_eq(t, "1.0") {
        Some(StompVersion::Stomp_v1_0)
    } else if str_eq(t, "1.1") {
        Some(StompVersion::Stomp_v1_1)
    } else if str_eq(t, "1.2") {
        Some(StompVersion::Stomp_v1_2)
    } else {
        None
    }
}

impl HeaderList {
    /// The versions listed in `accept-version`, comma separated, unknown
    /// entries skipped; `None` when the header is absent.
    pub fn get_accept_version(&self) -> (r: Option<Vec<StompVersion>>)
        ensures
            r is Some <==> spec_header_value(self@, "accept-version"@) is Some,
            r matches Some(versions) ==> Some(versions@) == (match spec_header_value(
                self@,
                "accept-version"@,
            ) {
                Some(v) => Some(spec_parse_version_list(spec_split(v, ','))),
                None => None,
            }),
    {
        proof {
            reveal_strlit("accept-version");
        }
        let header = match self.get_header("accept-version") {
            Some(h) => h,
            None => {
                return None;
            },
        };
        let mut rest: &str = header.get_value();
        let mut versions: Vec<StompVersion> = Vec::new();
        let ghost whole = rest@;
        let ghost target = spec_parse_version_list(spec_split(whole, ','));
        proof {
            assert(target =~= versions@ + target);
        }
        loop
            invariant
                spec_header_value(self@, "accept-version"@) == Some(whole),
                target == spec_parse_version_list(spec_split(whole, ',')),
                target == versions@ + spec_parse_version_list(spec_split(rest@, ',')),
            decreases rest@.len(),
        {
            let ghost cur = rest@;
            let len = rest.unicode_len();
            match find_char(rest, ',') {
                Some(ci) => {
                    proof {
                        let cc = choose|c: int| found_sep_at(cur, ',', c);
                        lemma_found_sep_at_unique(cur, ',', cc, ci as int);
                    }
                    let seg = rest.substring_char(0, ci);
                    proof {
                        assert(seg@ =~= cur.take(ci as int));
                    }
                    if let Some(ver) = parse_version_segment(seg) {
                        versions.push(ver);
                    }
                    let next = rest.substring_char(ci + 1, len);
                    proof {
                        assert(next@ =~= cur.skip(ci as int + 1));
                        let split = spec_split(cur, ',');
                        assert(split[0] == cur.take(ci as int));
                        assert(split.skip(1) =~= spec_split(next@, ','));
                        assert(spec_parse_version_list(split) == (match spec_parse_version(
                            seg@,
                        ) {
                            Some(x) => seq![x],
                            None => Seq::<StompVersion>::empty(),
                        }) + spec_parse_version_list(spec_split(next@, ',')));
                        assert(target =~= versions@ + spec_parse_version_list(
                            spec_split(next@, ','),
                        ));
                    }
                    rest = next;
                },
                None => {
                    if let Some(ver) = parse_version_segment(rest) {
                        versions.push(ver);
                    }
                    proof {
                        let split = spec_split(cur, ',');
                        assert(split =~= seq![cur]);
                        assert(split.skip(1) =~= Seq::<Seq<char>>::empty());
                        assert(spec_parse_version_list(split) == (match spec_parse_version(
                            cur,
                        ) {
                            Some(x) => seq![x],
                            None => Seq::<StompVersion>::empty(),
                        }) + spec_parse_version_list(Seq::<Seq<char>>::empty()));
                        assert(target =~= versions@);
                    }
                    return Some(versions);
                },
            }
        }
    }

    /// The value of the `ack` header, if present.
    pub fn get_ack<'a>(&'a self) -> (r: Option<Ack<'a>>)
        ensures
            r is Some <==> spec_header_value(self@, "ack"@) is Some,
            r matches Some(x) ==> Some(x.0@) == spec_header_value(self@, "ack"@),
    {
        proof {
            reveal_strlit("ack");
        }
        match self.get_header("ack") {
            Some(h) => Some(Ack(h.get_value())),
            None => None,
        }
    }

    /// The value of the `destination` header, if present.
    pub fn get_destination<'a>(&'a self) -> (r: Option<Destination<'a>>)
        ensures
            r is Some <==> spec_header_value(self@, "destination"@) is Some,
            r matches Some(x) ==> Some(x.0@) == spec_header_value(self@, "destination"@),
    {
        proof {
            reveal_strlit("destination");
        }
        match self.get_header("destination") {
            Some(h) => Some(Destination(h.get_value())),
            None => None,
        }
    }

    /// The advertised heartbeat intervals: present and well formed, or
    /// nothing.
    pub fn get_heart_beat(&self) -> (r: Option<HeartBeat>)
        ensures
            (match spec_header_value(self@, "heart-beat"@) {
                None => r is None,
                Some(v) => match spec_parse_heart_beat(v) {
                    None => r is None,
                    Some(xy) => r matches Some(hb) && hb.0 == xy.0 && hb.1 == xy.1,
                },
            }),
    {
        proof {
            reveal_strlit("heart-beat");
        }
        let header = match self.get_header("heart-beat") {
            Some(h) => h,
            None => {
                return None;
            },
        };
        let value = header.get_value();
        let ghost v = value@;
        let len = value.unicode_len();
        let ci = match find_char(value, ',') {
            Some(ci) => ci,
            None => {
                return None;
            },
        };
        proof {
            let cc = choose|c: int| found_sep_at(v, ',', c);
            lemma_found_sep_at_unique(v, ',', cc, ci as int);
        }
        let left = value.substring_char(0, ci);
        let right = value.substring_char(ci + 1, len);
        proof {
            assert(left@ =~= v.take(ci as int));
            assert(right@ =~= v.skip(ci as int + 1));
        }
        let x = match parse_u32(left) {
            Some(x) => x,
            None => {
                return None;
            },
        };
        let y = match parse_u32(right) {
            Some(y) => y,
            None => {
                return None;
            },
        };
        Some(HeartBeat(x, y))
    }

    /// The value of the `host` header, if present.
    pub fn get_host<'a>(&'a self) -> (r: Option<Host<'a>>)
        ensures
            r is Some <==> spec_header_value(self@, "host"@) is Some,
            r matches Some(x) ==> Some(x.0@) == spec_header_value(self@, "host"@),
    {
        proof {
            reveal_strlit("host");
        }
        match self.get_header("host") {
            Some(h) => Some(Host(h.get_value())),
            None => None,
        }
    }

    /// The value of the `id` header, if present.
    pub fn get_id<'a>(&'a self) -> (r: Option<Id<'a>>)
        ensures
            r is Some <==> spec_header_value(self@, "id"@) is Some,
            r matches Some(x) ==> Some(x.0@) == spec_header_value(self@, "id"@),
    {
        proof {
            reveal_strlit("id");
        }
        match self.get_header("id") {
            Some(h) => Some(Id(h.get_value())),
            None => None,
        }
    }

    /// The value of the `login` header, if present.
    pub fn get_login<'a>(&'a self) -> (r: Option<Login<'a>>)
        ensures
            r is Some <==> spec_header_value(self@, "login"@) is Some,
            r matches Some(x) ==> Some(x.0@) == spec_header_value(self@, "login"@),
    {
        proof {
            reveal_strlit("login");
        }
        match self.get_header("login") {
            Some(h) => Some(Login(h.get_value())),
            None => None,
        }
    }

    /// The value of the `message-id` header, if present.
    pub fn get_message_id<'a>(&'a self) -> (r: Option<MessageId<'a>>)
        ensures
            r is Some <==> spec_header_value(self@, "message-id"@) is Some,
            r matches Some(x) ==> Some(x.0@) == spec_header_value(self@, "message-id"@),
    {
        proof {
            reveal_strlit("message-id");
        }
        match self.get_header("message-id") {
            Some(h) => Some(MessageId(h.get_value())),
            None => None,
        }
    }

    /// The value of the `passcode` header, if present.
    pub fn get_passcode<'a>(&'a self) -> (r: Option<Passcode<'a>>)
        ensures
            r is Some <==> spec_header_value(self@, "passcode"@) is Some,
            r matches Some(x) ==> Some(x.0@) == spec_header_value(self@, "passcode"@),
    {
        proof {
            reveal_strlit("passcode");
        }
        match self.get_header("passcode") {
            Some(h) => Some(Passcode(h.get_value())),
            None => None,
        }
    }

    /// The value of the `receipt` header, if present.
    pub fn get_receipt<'a>(&'a self) -> (r: Option<Receipt<'a>>)
        ensures
            r is Some <==> spec_header_value(self@, "receipt"@) is Some,
            r matches Some(x) ==> Some(x.0@) == spec_header_value(self@, "receipt"@),
    {
        proof {
            reveal_strlit("receipt");
        }
        match self.get_header("receipt") {
            Some(h) => Some(Receipt(h.get_value())),
            None => None,
        }
    }

    /// The value of the `receipt-id` header, if present.
    pub fn get_receipt_id<'a>(&'a self) -> (r: Option<ReceiptId<'a>>)
        ensures
            r is Some <==> spec_header_value(self@, "receipt-id"@) is Some,
            r matches Some(x) ==> Some(x.0@) == spec_header_value(self@, "receipt-id"@),
    {
        proof {
            reveal_strlit("receipt-id");
        }
        match self.get_header("receipt-id") {
            Some(h) => Some(ReceiptId(h.get_value())),
            None => None,
        }
    }

    /// The value of the `server` header, if present.
    pub fn get_server<'a>(&'a self) -> (r: Option<Server<'a>>)
        ensures
            r is Some <==> spec_header_value(self@, "server"@) is Some,
            r matches Some(x) ==> Some(x.0@) == spec_header_value(self@, "server"@),
    {
        proof {
            reveal_strlit("server");
        }
        match self.get_header("server") {
            Some(h) => Some(Server(h.get_value())),
            None => None,
        }
    }

    /// The value of the `session` header, if present.
    pub fn get_session<'a>(&'a self) -> (r: Option<Session<'a>>)
        ensures
            r is Some <==> spec_header_value(self@, "session"@) is Some,
            r matches Some(x) ==> Some(x.0@) == spec_header_value(self@, "session"@),
    {
        proof {
            reveal_strlit("session");
        }
        match self.get_header("session") {
            Some(h) => Some(Session(h.get_value())),
            None => None,
        }
    }

    /// The value of the `subscription` header, if present.
    pub fn get_subscription<'a>(&'a self) -> (r: Option<Subscription<'a>>)
        ensures
            r is Some <==> spec_header_value(self@, "subscription"@) is Some,
            r matches Some(x) ==> Some(x.0@) == spec_header_value(self@, "subscription"@),
    {
        proof {
            reveal_strlit("subscription");
        }
        match self.get_header("subscription") {
            Some(h) => Some(Subscription(h.get_value())),
            None => None,
        }
    }

    /// The value of the `transaction` header, if present.
    pub fn get_transaction<'a>(&'a self) -> (r: Option<Transaction<'a>>)
        ensures
            r is Some <==> spec_header_value(self@, "transaction"@) is Some,
            r matches Some(x) ==> Some(x.0@) == spec_header_value(self@, "transaction"@),
    {
        proof {
            reveal_strlit("transaction");
        }
        match self.get_header("transaction") {
            Some(h) => Some(Transaction(h.get_value())),
            None => None,
        }
    }

    /// The protocol version named by the `version` header, when its value is
    /// exactly one of the three versions.
    pub fn get_version(&self) -> (r: Option<Version>)
        ensures
            (match spec_header_value(self@, "version"@) {
                None => r is None,
                Some(v) => {
                    if v == "1.0"@ {
                        r matches Some(x) && x.0 == StompVersion::Stomp_v1_0
                    } else if v == "1.1"@ {
                        r matches Some(x) && x.0 == StompVersion::Stomp_v1_1
                    } else if v == "1.2"@ {
                        r matches Some(x) && x.0 == StompVersion::Stomp_v1_2
                    } else {
                        r is None
                    }
                },
            }),
    {
        proof {
            reveal_strlit("version");
        }
        let header = match self.get_header("version") {
            Some(h) => h,
            None => {
                return None;
            },
        };
        let value = header.get_value();
        if str_eq(value, "1.0") {
            Some(Version(StompVersion::Stomp_v1_0))
        } else if str_eq(value, "1.1") {
            Some(Version(StompVersion::Stomp_v1_1))
        } else if str_eq(value, "1.2") {
            Some(Version(StompVersion::Stomp_v1_2))
        } else {
            None
        }
    }

    /// The `content-length` header parsed as a 32-bit count, when present
    /// and well formed.
    pub fn get_content_length(&self) -> (r: Option<ContentLength>)
        ensures
            (match spec_header_value(self@, "content-length"@) {
                None => r is None,
                Some(v) => match spec_parse_u32(v) {
                    None => r is None,
                    Some(n) => r matches Some(cl) && cl.0 == n,
                },
            }),
    {
        proof {
            reveal_strlit("content-length");
        }
        let header = match self.get_header("content-length") {
            Some(h) => h,
            None => {
                return None;
            },
        };
        match parse_u32(header.get_value()) {
            Some(n) => Some(ContentLength(n)),
            None => None,
        }
    }
}

} // verus!
