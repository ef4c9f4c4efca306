use stomp::connection::Connection;
use stomp::decimal::{format_u32, parse_u32};
use stomp::string_pool::StringPool;

#[test]
fn heartbeat_selection_rules() {
    // Zero on either relevant side disables a direction; otherwise the
    // larger of the two advertisements wins.
    assert_eq!(Connection::select_heartbeat(5000, 2000, 1000, 3000), (5000, 2000));
    assert_eq!(Connection::select_heartbeat(0, 2000, 1000, 3000), (0, 2000));
    assert_eq!(Connection::select_heartbeat(5000, 0, 1000, 3000), (5000, 0));
    assert_eq!(Connection::select_heartbeat(5000, 2000, 0, 3000), (5000, 0));
    assert_eq!(Connection::select_heartbeat(5000, 2000, 1000, 0), (0, 2000));
    assert_eq!(Connection::select_heartbeat(100, 200, 300, 400), (400, 300));
    assert_eq!(Connection::select_heartbeat(0, 0, 0, 0), (0, 0));
}

#[test]
fn decimal_format_and_parse_are_inverse() {
    for n in [0u32, 1, 9, 10, 42, 5000, 4294967295] {
        let s = format_u32(n);
        assert_eq!(parse_u32(s.as_str()), Some(n));
    }
    assert_eq!(format_u32(0), "0");
    assert_eq!(format_u32(4294967295), "4294967295");
}

#[test]
fn decimal_parse_rejects_nondigits_and_overflow() {
    for bad in ["", "+1", "-1", " 1", "1 ", "one", "4294967296", "99999999999999999999"] {
        assert_eq!(parse_u32(bad), None, "{bad:?} must not parse");
    }
    assert_eq!(parse_u32("007"), Some(7));
}

#[test]
fn string_pool_reuses_empty_buffers() {
    let mut pool = StringPool::with_size("test", 2);
    assert_eq!(pool.size(), 2);
    let s = pool.string_from("hello");
    assert_eq!(s, "hello");
    assert_eq!(pool.size(), 1);
    pool.put(s);
    assert_eq!(pool.size(), 2);
    let t = pool.get();
    assert_eq!(t, "");
}
