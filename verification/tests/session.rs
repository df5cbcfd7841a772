use respkv::session::{session_step, SessionStep};
use respkv::storage::Storage;

fn frame(args: &[&str]) -> Vec<u8> {
    let mut out = format!("*{}\r\n", args.len()).into_bytes();
    for a in args {
        out.extend_from_slice(format!("${}\r\n", a.len()).as_bytes());
        out.extend_from_slice(a.as_bytes());
        out.extend_from_slice(b"\r\n");
    }
    out
}

fn one(store: &mut Storage, args: &[&str], now_ms: u64) -> Vec<u8> {
    let mut buf = frame(args);
    match session_step(store, &mut buf, now_ms) {
        SessionStep::Reply(r) => {
            assert!(buf.is_empty(), "the whole request should be consumed");
            r
        },
        SessionStep::NeedMore => panic!("request unexpectedly incomplete"),
        SessionStep::Abort(_) => panic!("request unexpectedly malformed"),
    }
}

#[test]
fn ping_pongs() {
    let mut st = Storage::new();
    assert_eq!(one(&mut st, &["PING"], 0), b"+PONG\r\n".to_vec());
}

#[test]
fn command_names_ignore_ascii_case() {
    let mut st = Storage::new();
    assert_eq!(one(&mut st, &["PiNg"], 0), b"+PONG\r\n".to_vec());
    assert_eq!(one(&mut st, &["ping"], 0), b"+PONG\r\n".to_vec());
}

#[test]
fn echo_returns_its_argument() {
    let mut st = Storage::new();
    assert_eq!(one(&mut st, &["ECHO", "hey"], 0), b"$3\r\nhey\r\n".to_vec());
    assert_eq!(one(&mut st, &["ECHO"], 0), b"-Invalid args for ECHO\r\n".to_vec());
}

#[test]
fn set_get_del_round() {
    let mut st = Storage::new();
    assert_eq!(one(&mut st, &["SET", "foo", "bar"], 0), b"+OK\r\n".to_vec());
    assert_eq!(one(&mut st, &["GET", "foo"], 0), b"$3\r\nbar\r\n".to_vec());
    assert_eq!(one(&mut st, &["DEL", "foo"], 0), b":1\r\n".to_vec());
    assert_eq!(one(&mut st, &["GET", "foo"], 0), b"$-1\r\n".to_vec());
}

#[test]
fn set_with_wrong_arity_is_bad_args() {
    let mut st = Storage::new();
    assert_eq!(
        one(&mut st, &["SET", "foo", "bar", "PX"], 0),
        b"-Invalid args for SET\r\n".to_vec()
    );
    assert_eq!(
        one(&mut st, &["SET", "foo", "bar", "XX", "10"], 0),
        b"-Invalid args for SET\r\n".to_vec()
    );
    assert_eq!(
        one(&mut st, &["SET", "foo", "bar", "PX", "soon"], 0),
        b"-Invalid args for SET\r\n".to_vec()
    );
}

#[test]
fn push_then_range() {
    let mut st = Storage::new();
    assert_eq!(one(&mut st, &["RPUSH", "L", "a", "b", "c"], 0), b":3\r\n".to_vec());
    assert_eq!(one(&mut st, &["LPUSH", "L", "z"], 0), b":4\r\n".to_vec());
    assert_eq!(
        one(&mut st, &["LRANGE", "L", "0", "-1"], 0),
        b"*4\r\n$1\r\nz\r\n$1\r\na\r\n$1\r\nb\r\n$1\r\nc\r\n".to_vec()
    );
}

#[test]
fn index_and_overwrite() {
    let mut st = Storage::new();
    one(&mut st, &["RPUSH", "L", "a", "b", "c"], 0);
    assert_eq!(one(&mut st, &["LINDEX", "L", "-1"], 0), b"$1\r\nc\r\n".to_vec());
    assert_eq!(one(&mut st, &["LSET", "L", "-1", "C"], 0), b"+OK\r\n".to_vec());
    assert_eq!(
        one(&mut st, &["LSET", "L", "99", "X"], 0),
        b"-index out of range\r\n".to_vec()
    );
    assert_eq!(one(&mut st, &["LINDEX", "L", "2"], 0), b"$1\r\nC\r\n".to_vec());
    assert_eq!(one(&mut st, &["LINDEX", "L", "99"], 0), b"$-1\r\n".to_vec());
}

#[test]
fn expiry_in_wall_milliseconds() {
    let mut st = Storage::new();
    assert_eq!(one(&mut st, &["SET", "s", "hi", "PX", "50"], 0), b"+OK\r\n".to_vec());
    assert_eq!(one(&mut st, &["GET", "s"], 100), b"$-1\r\n".to_vec());
    assert_eq!(one(&mut st, &["DEL", "s"], 100), b":0\r\n".to_vec());
}

#[test]
fn count_signed_removal() {
    let mut st = Storage::new();
    assert_eq!(one(&mut st, &["RPUSH", "k", "1", "2", "2", "3", "2"], 0), b":5\r\n".to_vec());
    assert_eq!(one(&mut st, &["LREM", "k", "-1", "2"], 0), b":1\r\n".to_vec());
    assert_eq!(
        one(&mut st, &["LRANGE", "k", "0", "-1"], 0),
        b"*4\r\n$1\r\n1\r\n$1\r\n2\r\n$1\r\n2\r\n$1\r\n3\r\n".to_vec()
    );
    assert_eq!(one(&mut st, &["LREM", "k", "0", "2"], 0), b":2\r\n".to_vec());
    assert_eq!(
        one(&mut st, &["LRANGE", "k", "0", "-1"], 0),
        b"*2\r\n$1\r\n1\r\n$1\r\n3\r\n".to_vec()
    );
}

#[test]
fn list_commands_on_absent_keys() {
    let mut st = Storage::new();
    assert_eq!(one(&mut st, &["LLEN", "none"], 0), b":0\r\n".to_vec());
    assert_eq!(one(&mut st, &["LRANGE", "none", "0", "-1"], 0), b"*0\r\n".to_vec());
    assert_eq!(one(&mut st, &["LPOP", "none"], 0), b"$-1\r\n".to_vec());
    assert_eq!(one(&mut st, &["LINDEX", "none", "0"], 0), b"$-1\r\n".to_vec());
}

#[test]
fn pop_replies_single_or_batch() {
    let mut st = Storage::new();
    one(&mut st, &["RPUSH", "L", "a", "b", "c"], 0);
    assert_eq!(one(&mut st, &["LPOP", "L"], 0), b"$1\r\nc\r\n".to_vec());
    assert_eq!(
        one(&mut st, &["LPOP", "L", "9"], 0),
        b"*2\r\n$1\r\nb\r\n$1\r\na\r\n".to_vec()
    );
    assert_eq!(one(&mut st, &["LPOP", "L", "0"], 0), b"*0\r\n".to_vec());
    assert_eq!(one(&mut st, &["LPOP", "L", "x"], 0), b"-Invalid args for lpop\r\n".to_vec());
}

#[test]
fn bad_range_text_is_reported() {
    let mut st = Storage::new();
    one(&mut st, &["RPUSH", "L", "a"], 0);
    assert_eq!(one(&mut st, &["LRANGE", "L", "x", "1"], 0), b"-Invalid range\r\n".to_vec());
    assert_eq!(one(&mut st, &["LRANGE", "L", "0", "-9"], 0), b"-Invalid range\r\n".to_vec());
}

#[test]
fn hash_write_counts_pairs() {
    let mut st = Storage::new();
    assert_eq!(
        one(&mut st, &["HSET", "h", "f1", "v1", "f2", "v2"], 0),
        b":2\r\n".to_vec()
    );
    assert_eq!(one(&mut st, &["HSET", "h", "f1", "v9"], 0), b":1\r\n".to_vec());
    assert_eq!(
        one(&mut st, &["HSET", "h", "f3"], 0),
        b"-wrong number of arguments for 'hset' command\r\n".to_vec()
    );
}

#[test]
fn queue_commands_over_the_wire() {
    let mut st = Storage::new();
    assert_eq!(one(&mut st, &["QADD", "q", "a", "b"], 0), b"+OK\r\n".to_vec());
    assert_eq!(one(&mut st, &["QLEN", "q"], 0), b":2\r\n".to_vec());
    assert_eq!(one(&mut st, &["QPOP", "q"], 0), b"$1\r\na\r\n".to_vec());
    assert_eq!(one(&mut st, &["QPOP", "q"], 0), b"$1\r\nb\r\n".to_vec());
    assert_eq!(one(&mut st, &["QPOP", "q"], 0), b"$-1\r\n".to_vec());
    assert_eq!(one(&mut st, &["QLEN", "missing"], 0), b":0\r\n".to_vec());
}

#[test]
fn wrong_type_replies_and_preserves() {
    let mut st = Storage::new();
    one(&mut st, &["SET", "k", "v"], 0);
    let wt = b"-WRONGTYPE Operation against a key holding the wrong kind of value\r\n".to_vec();
    assert_eq!(one(&mut st, &["RPUSH", "k", "a"], 0), wt);
    assert_eq!(one(&mut st, &["LLEN", "k"], 0), wt);
    assert_eq!(one(&mut st, &["HSET", "k", "f", "v"], 0), wt);
    assert_eq!(one(&mut st, &["QPOP", "k"], 0), wt);
    assert_eq!(one(&mut st, &["GET", "k"], 0), b"$1\r\nv\r\n".to_vec());
}

#[test]
fn unknown_commands_are_reported() {
    let mut st = Storage::new();
    assert_eq!(one(&mut st, &["FLY"], 0), b"-Command not recognised\r\n".to_vec());
    assert_eq!(one(&mut st, &[], 0), b"-Command not recognised\r\n".to_vec());
}

#[test]
fn pipelined_requests_are_served_one_at_a_time() {
    let mut st = Storage::new();
    let mut buf = frame(&["SET", "a", "1"]);
    buf.extend_from_slice(&frame(&["GET", "a"]));
    match session_step(&mut st, &mut buf, 0) {
        SessionStep::Reply(r) => assert_eq!(r, b"+OK\r\n".to_vec()),
        _ => panic!("expected a reply"),
    }
    match session_step(&mut st, &mut buf, 0) {
        SessionStep::Reply(r) => assert_eq!(r, b"$1\r\n1\r\n".to_vec()),
        _ => panic!("expected a reply"),
    }
    assert!(buf.is_empty());
}

#[test]
fn partial_requests_wait_for_more_bytes() {
    let mut st = Storage::new();
    let whole = frame(&["PING"]);
    let mut buf = whole[..whole.len() - 3].to_vec();
    match session_step(&mut st, &mut buf, 0) {
        SessionStep::NeedMore => {},
        _ => panic!("expected to need more bytes"),
    }
    buf.extend_from_slice(&whole[whole.len() - 3..]);
    match session_step(&mut st, &mut buf, 0) {
        SessionStep::Reply(r) => assert_eq!(r, b"+PONG\r\n".to_vec()),
        _ => panic!("expected a reply"),
    }
}

#[test]
fn framing_errors_abort_the_session() {
    let mut st = Storage::new();
    let mut buf = b"GET foo\r\n".to_vec();
    match session_step(&mut st, &mut buf, 0) {
        SessionStep::Abort(e) => assert_eq!(e, b"-Error in parsing cmd length\r\n".to_vec()),
        _ => panic!("expected an abort"),
    }
}

#[test]
fn range_stop_is_inclusive_and_clamped() {
    let mut st = Storage::new();
    one(&mut st, &["RPUSH", "L", "a", "b", "c"], 0);
    assert_eq!(
        one(&mut st, &["LRANGE", "L", "0", "1"], 0),
        b"*2\r\n$1\r\na\r\n$1\r\nb\r\n".to_vec()
    );
    assert_eq!(
        one(&mut st, &["LRANGE", "L", "1", "99"], 0),
        b"*2\r\n$1\r\nb\r\n$1\r\nc\r\n".to_vec()
    );
    assert_eq!(one(&mut st, &["LRANGE", "L", "3", "-1"], 0), b"*0\r\n".to_vec());
}

#[test]
fn expiry_modifier_ignores_case() {
    let mut st = Storage::new();
    assert_eq!(one(&mut st, &["SET", "s", "hi", "px", "50"], 0), b"+OK\r\n".to_vec());
    assert_eq!(one(&mut st, &["GET", "s"], 50), b"$2\r\nhi\r\n".to_vec());
    assert_eq!(one(&mut st, &["GET", "s"], 51), b"$-1\r\n".to_vec());
}
