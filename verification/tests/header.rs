use stomp::header::{Header, HeaderList, SuppressedHeader};

#[test]
fn encode_return_carriage() {
    let unencoded = "Hello\rWorld";
    let encoded = r"Hello\rWorld";
    assert!(encoded == Header::encode_value(unencoded));
}

#[test]
fn encode_newline() {
    let unencoded = "Hello\nWorld";
    let encoded = r"Hello\nWorld";
    assert!(encoded == Header::encode_value(unencoded));
}

#[test]
fn encode_colon() {
    let unencoded = "Hello:World";
    let encoded = r"Hello\cWorld";
    assert!(encoded == Header::encode_value(unencoded));
}

#[test]
fn encode_slash() {
    let unencoded = r"Hello\World";
    let encoded = r"Hello\\World";
    assert!(encoded == Header::encode_value(unencoded));
}

#[test]
fn decode_reverses_encode() {
    for s in ["", "plain", "a:b", "line\nbreak", "cr\rlf\n", r"back\slash", ":\r\n\\"] {
        let encoded = Header::encode_value(s);
        let decoded = Header::decode_value(encoded.as_str()).expect("decoding an encoded value");
        assert_eq!(decoded.as_str(), s);
    }
}

#[test]
fn decode_rejects_bad_escape() {
    assert!(Header::decode_value(r"Hello\xWorld").is_none());
    assert!(Header::decode_value("trailing\\").is_none());
}

#[test]
fn decode_string_splits_at_first_colon() {
    let header = Header::decode_string("destination:/queue/a:b").expect("line with colon");
    assert_eq!(header.get_key(), "destination");
    assert_eq!(header.get_value(), "/queue/a:b");
    assert!(Header::decode_string("no-colon-here").is_none());
}

#[test]
fn lookup_is_first_wins() {
    let mut list = HeaderList::new();
    list.push(Header::new("destination", "/queue/a"));
    list.push(Header::new("destination", "/queue/b"));
    let found = list.get_header("destination").expect("header present");
    assert_eq!(found.get_value(), "/queue/a");
    assert!(list.get_header("absent").is_none());
}

#[test]
fn typed_getters_read_wellknown_headers() {
    let mut list = HeaderList::new();
    list.push(Header::new("ack", "ack-7"));
    list.push(Header::new("destination", "/queue/a"));
    list.push(Header::new("content-length", "42"));
    list.push(Header::new("heart-beat", "5000,2000"));
    list.push(Header::new("version", "1.2"));
    list.push(Header::new("accept-version", "1.0, 1.2 ,bogus"));
    assert_eq!(list.get_ack().unwrap().0, "ack-7");
    assert_eq!(list.get_destination().unwrap().0, "/queue/a");
    assert_eq!(list.get_content_length().unwrap().0, 42);
    let hb = list.get_heart_beat().unwrap();
    assert_eq!((hb.0, hb.1), (5000, 2000));
    let versions = list.get_accept_version().unwrap();
    assert_eq!(versions.len(), 2);
    assert!(list.get_receipt().is_none());
}

#[test]
fn heart_beat_rejects_malformed_values() {
    let mut list = HeaderList::new();
    list.push(Header::new("heart-beat", "5000"));
    assert!(list.get_heart_beat().is_none());
    let mut list2 = HeaderList::new();
    list2.push(Header::new("heart-beat", "a,b"));
    assert!(list2.get_heart_beat().is_none());
}

#[test]
fn content_length_rejects_sign_and_overflow() {
    for bad in ["+1", "-1", "", "4294967296", "12 "] {
        let mut list = HeaderList::new();
        list.push(Header::new_raw("content-length".to_string(), bad.to_string()));
        assert!(list.get_content_length().is_none(), "{bad:?} must not parse");
    }
    let mut list = HeaderList::new();
    list.push(Header::new_raw("content-length".to_string(), "4294967295".to_string()));
    assert_eq!(list.get_content_length().unwrap().0, u32::MAX);
}

#[test]
fn retain_drops_only_matching_keys() {
    let mut list = HeaderList::new();
    list.push(Header::new("a", "1"));
    list.push(Header::new("b", "2"));
    list.push(Header::new("a", "3"));
    list.retain(|h: &Header| h.get_key() != "a");
    assert_eq!(list.headers.len(), 1);
    assert_eq!(list.headers[0].get_key(), "b");
    let _ = SuppressedHeader("a");
}

#[test]
fn concat_appends_and_empties_the_other_list() {
    let mut left = HeaderList::new();
    left.push(Header::new("a", "1"));
    let mut right = HeaderList::new();
    right.push(Header::new("b", "2"));
    right.push(Header::new("c", "3"));
    left.concat(&mut right);
    assert_eq!(left.headers.len(), 3);
    assert_eq!(left.headers[1].get_key(), "b");
    assert_eq!(left.headers[2].get_key(), "c");
    assert_eq!(right.headers.len(), 0);
}

#[test]
fn from_str_keeps_raw_text() {
    let header = Header::from_str(r"key:a\nb").expect("line with colon");
    assert_eq!(header.get_key(), "key");
    assert_eq!(header.get_value(), r"a\nb");
    assert!(Header::from_str("nocolon").is_none());
}

#[test]
fn from_key_value_joins_raw_parts() {
    let header = Header::from_key_value("key", "value:extra");
    assert_eq!(header.get_raw(), "key:value:extra");
}

#[test]
fn get_raw_joins_key_and_value() {
    let header = Header::new("destination", "/queue/a");
    assert_eq!(header.get_raw(), "destination:/queue/a");
}
